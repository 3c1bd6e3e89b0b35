use cargo_cgp::cgp_patterns::{ComponentInfo, FieldInfo, ProviderRelationship};
use cargo_cgp::diagnostic_db::DiagnosticEntry;
use cargo_cgp::cgp_patterns::find_comma_at_depth;
use cargo_cgp::error_formatting::{
    build_dependency_tree, extract_getter_trait_from_note, extract_trait_from_note,
    find_consumer_trait_for_component, find_matching_bracket, find_top_level_comma,
    format_error_message, format_field_name, render_dependency_tree,
    replace_can_use_component, replace_is_provider_for,
};
use cargo_cgp::raw_diagnostic::{DiagnosticLevel, RawDiagnostic, SpanInfo};

fn empty_diag() -> RawDiagnostic {
    RawDiagnostic {
        level: DiagnosticLevel::Error,
        message: "the trait bound is not satisfied".to_string(),
        code: Some("E0277".to_string()),
        children: Vec::new(),
        spans: Vec::new(),
        rendered: None,
    }
}

fn base_entry() -> DiagnosticEntry {
    DiagnosticEntry {
        original: empty_diag(),
        field_info: None,
        component_infos: Vec::new(),
        consumer_trait: None,
        provider_relationships: Vec::new(),
        delegation_notes: Vec::new(),
        has_other_hasfield_impls: false,
        primary_spans: Vec::new(),
        error_code: Some("E0277".to_string()),
        message: "the trait bound is not satisfied".to_string(),
        is_root_cause: false,
        suppressed: false,
    }
}

fn rect_component() -> ComponentInfo {
    ComponentInfo {
        component_type: "AreaCalculatorComponent".to_string(),
        provider_trait: Some("AreaCalculator".to_string()),
    }
}

fn rect_relationship() -> ProviderRelationship {
    ProviderRelationship {
        provider_type: "RectangleArea".to_string(),
        component: "AreaCalculatorComponent".to_string(),
        context: "Rectangle".to_string(),
    }
}

fn height_field() -> FieldInfo {
    FieldInfo {
        field_name: "height".to_string(),
        is_complete: true,
        has_unknown_chars: false,
        target_type: "Rectangle".to_string(),
    }
}

#[test]
fn test_replace_is_provider_for() {
    let input =
        "required for `Foo` to implement `IsProviderFor<AreaCalculatorComponent, Context>`";
    let output = replace_is_provider_for(input);
    assert!(output.contains("provider trait `AreaCalculator`"));
    assert!(!output.contains("IsProviderFor"));
}

#[test]
fn test_find_top_level_comma() {
    let text = "IsProviderFor<Foo<A, B>, Bar>";
    let start = "IsProviderFor<".len();
    if let Some(pos) = find_top_level_comma(start, text) {
        assert_eq!(&text[start..pos], "Foo<A, B>");
    } else {
        panic!("Should find comma");
    }
}

#[test]
fn test_find_matching_bracket() {
    let text = "X<a<b>, c> tail";
    let start = 2;
    assert_eq!(find_matching_bracket(start, text), Some(10));
}

#[test]
fn test_replace_can_use_component() {
    let input = "to implement `CanUseComponent<AreaCalculatorComponent>`";
    let output = replace_can_use_component(input);
    assert!(output.contains("use component `AreaCalculatorComponent`"));
    assert!(!output.contains("CanUseComponent"));
}

#[test]
fn test_format_field_name_escapes() {
    assert_eq!(format_field_name("height"), "height");
    assert_eq!(format_field_name("a\"b"), "\"a\\\"b\"");
}

#[test]
fn test_fuzzy_consumer_match() {
    let mut entry = base_entry();
    entry.provider_relationships.push(rect_relationship());
    entry
        .delegation_notes
        .push("required for `Rectangle` to implement `CanCalculateArea`".to_string());
    let found = find_consumer_trait_for_component("AreaCalculatorComponent", &entry);
    assert_eq!(found, Some("CanCalculateArea".to_string()));
}

#[test]
fn test_tree_depth_for_single_chain() {
    // A context missing one field, required by one capability through one
    // provider with one getter-level interface: check, consumer, provider,
    // getter and field levels, with the field leaf unsatisfied.
    let mut entry = base_entry();
    entry.field_info = Some(height_field());
    entry.consumer_trait = Some("CanUseRectangle".to_string());
    entry.component_infos.push(rect_component());
    entry.provider_relationships.push(rect_relationship());
    entry
        .delegation_notes
        .push("required for `Rectangle` to implement `HasRectangleFields`".to_string());
    let tree = build_dependency_tree(&entry).expect("tree expected");
    assert_eq!(tree.description, "`CanUseRectangle` for `Rectangle`");
    assert_eq!(tree.children.len(), 1);
    let consumer = &tree.children[0];
    assert_eq!(consumer.children.len(), 1);
    let provider = &consumer.children[0];
    assert!(provider.description.contains("RectangleArea"));
    assert_eq!(provider.children.len(), 1);
    let getter = &provider.children[0];
    assert_eq!(getter.description, "`HasRectangleFields` for `Rectangle`");
    assert_eq!(getter.children.len(), 1);
    let field = &getter.children[0];
    assert_eq!(field.description, "field `height` on `Rectangle`");
    assert_eq!(field.is_satisfied, Some(false));
    assert_eq!(field.children.len(), 0);
}

#[test]
fn test_shared_consumer_rendered_once() {
    // Two capabilities that both transitively need the same consumer
    // interface: the root has two children and the second occurrence of
    // the shared interface is a reference leaf.
    let mut entry = base_entry();
    entry.field_info = Some(height_field());
    entry.consumer_trait = Some("CanUseRectangle".to_string());
    entry.component_infos.push(ComponentInfo {
        component_type: "FirstThingComponent".to_string(),
        provider_trait: Some("FirstThing".to_string()),
    });
    entry.component_infos.push(ComponentInfo {
        component_type: "SecondThingComponent".to_string(),
        provider_trait: Some("SecondThing".to_string()),
    });
    entry.provider_relationships.push(ProviderRelationship {
        provider_type: "FirstImpl".to_string(),
        component: "FirstThingComponent".to_string(),
        context: "Rectangle".to_string(),
    });
    entry.provider_relationships.push(ProviderRelationship {
        provider_type: "SecondImpl".to_string(),
        component: "SecondThingComponent".to_string(),
        context: "Rectangle".to_string(),
    });
    entry
        .delegation_notes
        .push("required for `Rectangle` to implement `CanShareWork`".to_string());
    let tree = build_dependency_tree(&entry).expect("tree expected");
    assert_eq!(tree.children.len(), 2);
    let first_nested = &tree.children[0].children[0].children[0];
    assert_eq!(first_nested.name, Some("CanShareWork".to_string()));
    assert!(!first_nested.is_reference);
    let second_nested = &tree.children[1].children[0].children[0];
    assert_eq!(second_nested.name, Some("CanShareWork".to_string()));
    assert!(second_nested.is_reference);
    assert_eq!(second_nested.children.len(), 0);

    let lines = render_dependency_tree(&tree, "", true, true);
    let expanded = lines
        .iter()
        .filter(|l| l.contains("`CanShareWork` for") && !l.contains("(*)"))
        .count();
    assert_eq!(expanded, 1);
    let referenced = lines
        .iter()
        .filter(|l| l.contains("`CanShareWork` for") && l.contains("(*)"))
        .count();
    assert_eq!(referenced, 1);
}

#[test]
fn test_format_error_message_missing_field() {
    let mut entry = base_entry();
    entry.field_info = Some(height_field());
    entry.consumer_trait = Some("CanUseRectangle".to_string());
    entry.component_infos.push(rect_component());
    entry.provider_relationships.push(rect_relationship());
    entry
        .delegation_notes
        .push("required for `Rectangle` to implement `HasRectangleFields`".to_string());
    entry.primary_spans.push(SpanInfo {
        file_name: "src/demo.rs".to_string(),
        line_start: 12,
        column_start: 9,
        column_end: 32,
        is_primary: true,
        label: None,
        text: vec!["        AreaCalculatorComponent,".to_string()],
    });
    let d = format_error_message(&entry, None).expect("diagnostic expected");
    assert_eq!(
        d.message,
        "missing field `height` or `#[derive(HasField)]` in the context `Rectangle`."
    );
    assert_eq!(d.code, Some("E0277".to_string()));
    let help = d.help.expect("help expected");
    assert!(help.contains("Dependency chain:"));
    assert!(help.contains("is defined at `src/demo.rs:12`"));
    assert!(help.contains("To fix this error:"));
    // Fallback source uses the embedded snippet text.
    let source = d.source_code.expect("source expected");
    assert_eq!(source.name, "src/demo.rs");
    assert_eq!(source.text, "        AreaCalculatorComponent,");
    assert_eq!(d.labels.len(), 1);
    assert_eq!(d.labels[0].offset, 8);
    assert_eq!(d.labels[0].len, 23);
    assert_eq!(d.labels[0].label, Some("unsatisfied trait bound".to_string()));
}

#[test]
fn test_byte_offsets_from_file_content() {
    let mut entry = base_entry();
    entry.field_info = Some(height_field());
    entry.primary_spans.push(SpanInfo {
        file_name: "src/demo.rs".to_string(),
        line_start: 2,
        column_start: 2,
        column_end: 4,
        is_primary: true,
        label: Some("here".to_string()),
        text: Vec::new(),
    });
    let content = "abc\ndef\nghi".to_string();
    let d = format_error_message(&entry, Some(&content)).expect("diagnostic expected");
    let source = d.source_code.expect("source expected");
    assert_eq!(source.text, "abc\ndef\nghi");
    assert_eq!(d.labels.len(), 1);
    // One prior line of three bytes plus its line feed, plus one column.
    assert_eq!(d.labels[0].offset, 5);
    assert_eq!(d.labels[0].len, 2);
    assert_eq!(d.labels[0].label, Some("here".to_string()));
}

#[test]
fn test_higher_order_provider_hint() {
    let mut entry = base_entry();
    entry.field_info = Some(height_field());
    entry.component_infos.push(rect_component());
    entry.provider_relationships.push(rect_relationship());
    entry.provider_relationships.push(ProviderRelationship {
        provider_type: "ScaledArea<RectangleArea>".to_string(),
        component: "AreaCalculatorComponent".to_string(),
        context: "Rectangle".to_string(),
    });
    let d = format_error_message(&entry, None).expect("diagnostic expected");
    let help = d.help.expect("help expected");
    assert!(help.contains(
        "The error in the higher-order provider `ScaledArea<RectangleArea>` might be caused by its inner provider `RectangleArea`."
    ));
}

#[test]
fn test_find_comma_at_depth_skips_nested() {
    let text = "Map<K, V>, Context";
    assert_eq!(find_comma_at_depth(0, text), Some(9));
}

#[test]
fn test_extract_trait_from_note_variants() {
    assert_eq!(
        extract_trait_from_note("required for `R` to implement `cgp::HasRectangleFields`"),
        Some("HasRectangleFields".to_string())
    );
    assert_eq!(
        extract_trait_from_note("required for `R` to implement `IsProviderFor<FooComponent, R>`"),
        Some("FooComponent".to_string())
    );
    assert_eq!(
        extract_getter_trait_from_note("required for `R` to implement `CanDoThings`"),
        None
    );
}

#[test]
fn test_generic_entry_without_facts_has_no_help() {
    let entry = base_entry();
    let d = format_error_message(&entry, None).expect("diagnostic expected");
    assert_eq!(d.message, "the trait bound is not satisfied");
    assert!(d.help.is_none());
    assert!(d.source_code.is_none());
    assert!(d.labels.is_empty());
}

#[test]
fn test_replace_can_use_component_truncated() {
    // A truncated marker is replaced best-effort up to the end.
    let input = "to implement `CanUseComponent<FooComponent";
    let output = replace_can_use_component(input);
    assert_eq!(output, "to implement `use component `FooComponent`");
    assert!(!output.contains("CanUseComponent"));
}
