use cargo_cgp::diagnostic_db::DiagnosticDatabase;
use cargo_cgp::raw_diagnostic::{ChildNote, DiagnosticLevel, RawDiagnostic, SpanInfo};
use cargo_cgp::render::{render_message, render_message_with_mode, RenderAction, RenderMode, StreamRecord};
use cargo_cgp::render_compiler_message::{render_compiler_message, CgpErrorMetadata};
use cargo_cgp::run_check::{parse_format_string, parse_message_format, OutputFormat};

fn field_diag() -> RawDiagnostic {
    RawDiagnostic {
        level: DiagnosticLevel::Error,
        message: "the trait bound `Rectangle: CanUseComponent<AreaCalculatorComponent>` is not satisfied".to_string(),
        code: Some("E0277".to_string()),
        children: vec![
            ChildNote {
                level: DiagnosticLevel::Help,
                message: "the trait `HasField<Symbol<6, Chars<'h', Chars<'e', Chars<'i', Chars<'g', Chars<'h', Chars<'t', Nil>>>>>>>>` is not implemented for `demo::Rectangle`".to_string(),
            },
            ChildNote {
                level: DiagnosticLevel::Note,
                message: "required for `Rectangle` to implement `HasRectangleFields`".to_string(),
            },
            ChildNote {
                level: DiagnosticLevel::Note,
                message: "required for `RectangleArea` to implement `IsProviderFor<AreaCalculatorComponent, Rectangle>`".to_string(),
            },
        ],
        spans: vec![SpanInfo {
            file_name: "examples/src/base_area.rs".to_string(),
            line_start: 41,
            column_start: 9,
            column_end: 32,
            is_primary: true,
            label: Some("unsatisfied trait bound".to_string()),
            text: vec!["        AreaCalculatorComponent,".to_string()],
        }],
        rendered: None,
    }
}

#[test]
fn test_render_compiler_message_field_error() {
    let d = field_diag();
    let out = render_compiler_message(&d);
    assert!(out.starts_with("error[E0277]: missing field `height` required by CGP component"));
    assert!(out.contains("  --> examples/src/base_area.rs:41:9"));
    assert!(out.contains("  41 |         AreaCalculatorComponent,"));
    assert!(out.contains("delegation chain:"));
    assert!(out.contains("provider trait `AreaCalculator`"));
    assert!(out.contains("= note: this field is required by the trait bound `HasRectangleFields`"));
}

#[test]
fn test_render_compiler_message_passthrough() {
    let d = RawDiagnostic {
        level: DiagnosticLevel::Error,
        message: "ordinary type error".to_string(),
        code: None,
        children: Vec::new(),
        spans: Vec::new(),
        rendered: Some("rendered text".to_string()),
    };
    assert_eq!(render_compiler_message(&d), "rendered text");
}

#[test]
fn test_metadata_from_diagnostic() {
    let d = field_diag();
    let meta = CgpErrorMetadata::from_diagnostic(&d);
    assert_eq!(meta.component, Some("AreaCalculatorComponent".to_string()));
    assert_eq!(meta.context, Some("Rectangle".to_string()));
    assert!(meta.has_missing_field);
}

#[test]
fn test_render_message_absorbs_framework_diagnostics() {
    let mut db = DiagnosticDatabase::new();
    let record = StreamRecord::Compiler(field_diag());
    let action = render_message(&record, &mut db);
    assert!(matches!(action, RenderAction::Absorbed));
    assert_eq!(db.get_all_entries().len(), 1);

    let other = StreamRecord::Compiler(RawDiagnostic {
        level: DiagnosticLevel::Error,
        message: "ordinary type error".to_string(),
        code: None,
        children: Vec::new(),
        spans: Vec::new(),
        rendered: None,
    });
    let action2 = render_message(&other, &mut db);
    assert!(matches!(action2, RenderAction::PrintRendered));
    assert_eq!(db.get_all_entries().len(), 1);
}

#[test]
fn test_render_message_modes() {
    let mut db = DiagnosticDatabase::new();
    let artifact = StreamRecord::Artifact { target_name: "demo".to_string(), fresh: true };
    match render_message_with_mode(&artifact, &mut db, RenderMode::Human) {
        RenderAction::PrintProgress(line) => assert_eq!(line, "       Fresh demo"),
        _ => panic!("expected progress line"),
    }
    let finished = StreamRecord::BuildFinished { success: false };
    assert!(matches!(
        render_message_with_mode(&finished, &mut db, RenderMode::Human),
        RenderAction::PrintBuildFailed
    ));
    assert!(matches!(
        render_message_with_mode(&finished, &mut db, RenderMode::Json),
        RenderAction::PassThrough
    ));
}

#[test]
fn test_parse_format_string() {
    assert_eq!(parse_format_string("json"), OutputFormat::Json);
    assert_eq!(
        parse_format_string("json,diagnostic-rendered-ansi"),
        OutputFormat::Json
    );
    assert_eq!(parse_format_string("short"), OutputFormat::Short);
    assert_eq!(parse_format_string("human"), OutputFormat::Human);
    assert_eq!(parse_format_string("short,json"), OutputFormat::Short);
}

#[test]
fn test_parse_message_format() {
    let args = vec![
        "--message-format".to_string(),
        "json".to_string(),
        "--release".to_string(),
    ];
    let (fmt, rest) = parse_message_format(&args);
    assert_eq!(fmt, OutputFormat::Json);
    assert_eq!(rest, vec!["--release".to_string()]);

    let args2 = vec!["--message-format=short".to_string(), "-p".to_string()];
    let (fmt2, rest2) = parse_message_format(&args2);
    assert_eq!(fmt2, OutputFormat::Short);
    assert_eq!(rest2, vec!["-p".to_string()]);

    let args3 = vec!["build".to_string()];
    let (fmt3, rest3) = parse_message_format(&args3);
    assert_eq!(fmt3, OutputFormat::Human);
    assert_eq!(rest3, vec!["build".to_string()]);
}

#[test]
fn test_render_suppresses_provider_trait_error() {
    // A provider-level error without field information renders as the
    // empty text: the detailed record that follows carries the story.
    let d = RawDiagnostic {
        level: DiagnosticLevel::Error,
        message: "the trait bound `RectangleArea: AreaCalculator<Rectangle>` is not satisfied"
            .to_string(),
        code: Some("E0277".to_string()),
        children: vec![ChildNote {
            level: DiagnosticLevel::Note,
            message: "required for `RectangleArea` to implement `IsProviderFor<AreaCalculatorComponent, Rectangle>`".to_string(),
        }],
        spans: Vec::new(),
        rendered: None,
    };
    assert_eq!(render_compiler_message(&d), "");
}
