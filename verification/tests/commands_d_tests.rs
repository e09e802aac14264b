use oc_diagdoc::commands::readme::{ReadmeCommand, ReadmeResult};
use oc_diagdoc::commands::report::{Report, ReportCommand};
use oc_diagdoc::commands::restore::{RestoreCommand, RestoreResult};
use oc_diagdoc::commands::search::{SearchCommand, SearchMatch, SearchResults};
use oc_diagdoc::commands::snapshot::{SnapshotCommand, SnapshotInfo, SnapshotResult};
use oc_diagdoc::commands::template::{TemplateCommand, TemplateInfo, TemplateResult};
use oc_diagdoc::commands::trace::{TraceCommand, TraceReference, TraceResult, TraceType};

#[test]
fn test_readme_result_new() {
    let result = ReadmeResult::new("README.md");
    assert_eq!(result.sections_generated, 0);
}

#[test]
fn test_readme_command_fields() {
    let cmd = ReadmeCommand { path: None, output: Some("README.md".to_string()), badges: true, toc: true, template: None, stats: true };
    assert!(cmd.stats);
    assert!(cmd.badges);
}

#[test]
fn test_readme_with_options() {
    let cmd = ReadmeCommand { path: None, output: None, badges: true, toc: true, template: Some("template.md".to_string()), stats: false };
    assert!(cmd.template.is_some());
}

#[test]
fn readme_compose() {
    let cmd = ReadmeCommand { path: None, output: None, badges: true, toc: true, template: None, stats: true };
    let contents = vec![
        "module: B\none".to_string(),
        "module: A\ntwo".to_string(),
        "module: A\nthree".to_string(),
    ];
    let (sections, text) = cmd.compose(4, &contents, Some("Docs: {{DOC_COUNT}}\n"), "2024-01-01", "2024-01-01 10:00");
    assert_eq!(sections, 6);
    assert!(text.starts_with("![Docs](https://img.shields.io/badge/docs-4-blue)\n![Words](https://img.shields.io/badge/words-9-green)\n\n# Documentación del Proyecto\n\n"));
    assert!(text.contains("- **Módulos:** 2\n"));
    assert!(text.contains("| A | 2 |\n| B | 1 |\n"));
    assert!(text.contains("Docs: 4\n"));
    assert!(text.ends_with("*Generado automáticamente por oc_diagdoc el 2024-01-01 10:00*\n"));
    assert_eq!(cmd.output_path("Datos"), "Datos/README.md");
    let r = cmd.result_for("R.md", sections, &text);
    assert_eq!(r.lines, text.lines().count());
}

#[test]
fn test_to_markdown() {
    let mut report = Report::new("Test");
    report.add_section("Section", "Content here", 2);
    let md = report.to_markdown();
    assert!(md.contains("# Test"));
    assert!(md.contains("## Section"));
}

#[test]
fn test_section_levels() {
    let mut report = Report::new("Test");
    report.add_section("H2", "c", 2);
    report.add_section("H3", "c", 3);
    let md = report.to_markdown();
    assert!(md.contains("## H2"));
    assert!(md.contains("### H3"));
}

#[test]
fn report_build() {
    let cmd = ReportCommand { path: None, format: "markdown".to_string(), output: None, report_type: "full".to_string() };
    let contents = vec![
        "---\nid: \"10.1\"\n---\nbody [[x]] [[y|z]]".to_string(),
        "---\nid: 2.3\n---\nmore words here".to_string(),
    ];
    let r = cmd.build(&contents);
    assert_eq!(r.sections.len(), 3);
    assert!(r.sections[0].content.contains("| Documentos | 2 |"));
    assert!(r.sections[0].content.contains("| Enlaces internos | 2 |"));
    assert_eq!(r.sections[1].content, "- **Módulo 2**: 1 documentos\n- **Módulo 10**: 1 documentos");
    assert!(ReportCommand::keeps_file("1.1 doc.md"));
    assert!(!ReportCommand::keeps_file("TEST_x.md"));
}

#[test]
fn test_restore_result_new() {
    let result = RestoreResult::new("snap_123");
    assert_eq!(result.snapshot_id, "snap_123");
}

#[test]
fn test_has_conflicts_false() {
    let result = RestoreResult::new("snap_123");
    assert!(!result.has_conflicts());
}

#[test]
fn test_has_conflicts_true() {
    let mut result = RestoreResult::new("snap_123");
    result.conflicts.push("conflict.md".to_string());
    assert!(result.has_conflicts());
}

#[test]
fn test_restore_command_fields() {
    let cmd = RestoreCommand {
        snapshot_id: "snap_123".to_string(),
        force: false,
        dry_run: true,
        path: None,
        validate: true,
        filter: Some("modulo_1".to_string()),
    };
    assert!(cmd.validate);
    assert!(cmd.dry_run);
}

#[test]
fn restore_decisions() {
    let cmd = RestoreCommand { snapshot_id: "1.2".to_string(), force: false, dry_run: false, path: None, validate: true, filter: None };
    assert!(cmd.should_restore("x.md", "document_id: 1.2\n"));
    assert!(cmd.should_restore("old 1.2.md", "nothing"));
    assert!(!cmd.should_restore("x.md", "document_id: 1.3"));
    let filtered = RestoreCommand { filter: Some("keep".to_string()), ..cmd.clone() };
    assert!(!filtered.should_restore("1.2.md", "other"));
    assert!(cmd.validate_file("---\ndocument_id: 1\ntitle: t\n---\n"));
    assert!(!cmd.validate_file("---\ndocument_id: 1\ntitle: t\n"));
    assert_eq!(cmd.destination("Datos", "a.md"), "Datos/docs/a.md");
}

#[test]
fn test_search_match_new() {
    let m = SearchMatch::new("test.md", 1, "hello world".to_string(), 0, 5);
    assert_eq!(m.line_number, 1);
}

#[test]
fn test_search_results() {
    let results = SearchResults::new("test");
    assert_eq!(results.match_count(), 0);
}

#[test]
fn test_highlighted_line() {
    let m = SearchMatch::new("test.md", 1, "hello world".to_string(), 0, 5);
    let highlighted = m.highlighted_line();
    assert!(highlighted.contains("\x1b[1;33m"));
    assert_eq!(highlighted, "\x1b[1;33mhello\x1b[0m world");
}

#[test]
fn search_in_content_lines() {
    let cmd = SearchCommand {
        pattern: "Hello".to_string(),
        path: None,
        regex: false,
        ignore_case: true,
        yaml: false,
        content_only: false,
        context: 2,
        max_results: None,
    };
    let matches = cmd.search_in_content("line1\nsay hello world\nHELLO", "test.md");
    assert_eq!(matches.len(), 2);
    assert_eq!(matches[0].line_number, 2);
    assert_eq!(matches[0].match_start, 4);
    assert_eq!(matches[0].match_length, 5);
    let one = SearchCommand { max_results: Some(1), ..cmd.clone() };
    assert_eq!(one.search_in_content("hello\nhello", "t.md").len(), 1);
    let mut results = SearchResults::new("q");
    results.matches = matches;
    assert_eq!(results.files_with_matches(), 1);
}

#[test]
fn test_snapshot_info_new() {
    let info = SnapshotInfo::new("1", "test");
    assert_eq!(info.name, "test");
}

#[test]
fn test_snapshot_result_created() {
    let info = SnapshotInfo::new("1", "test");
    let result = SnapshotResult::created(info);
    assert_eq!(result.action, "created");
}

#[test]
fn test_snapshot_result_list() {
    let result = SnapshotResult::list(vec![]);
    assert_eq!(result.action, "list");
}

#[test]
fn test_snapshot_command_create() {
    let cmd = SnapshotCommand { name: Some("my_snap".to_string()), list: false, path: None };
    let result = cmd.run();
    assert!(result.snapshot.is_some());
    assert!(result.snapshot.unwrap().id.starts_with("snap_"));
}

#[test]
fn test_template_info_new() {
    let info = TemplateInfo::new("test", "templates/test.md");
    assert_eq!(info.name, "test");
}

#[test]
fn test_template_result_list() {
    let result = TemplateResult::list(vec![]);
    assert_eq!(result.action, "list");
}

#[test]
fn test_template_result_created() {
    let info = TemplateInfo::new("new", "t.md");
    let result = TemplateResult::created(info);
    assert_eq!(result.action, "created");
}

#[test]
fn template_run() {
    let cmd = TemplateCommand { name: None, list: false, create: false, path: None };
    assert_eq!(cmd.run().templates.len(), 3);
    let cmd = TemplateCommand { name: Some("x".to_string()), list: false, create: true, path: None };
    let r = cmd.run();
    assert_eq!(r.action, "created");
    assert_eq!(r.templates[0].path, "templates/new.md");
}

#[test]
fn test_trace_result_new() {
    let result = TraceResult::new("1.1");
    assert_eq!(result.document_id, "1.1");
    assert_eq!(result.depth_reached, 0);
}

#[test]
fn trace_result_helpers() {
    let mut result = TraceResult::new("1.1");
    result.add_reference(TraceReference { source: "1.1".to_string(), target: "1.2".to_string(), ref_type: TraceType::Link, depth: 1 });
    assert_eq!(result.references.len(), 1);
    assert_eq!(result.depth_reached, 1);
    assert_eq!(result.unique_documents().len(), 2);
    assert_eq!(result.by_type(TraceType::Link).len(), 1);
    assert_eq!(result.by_type(TraceType::Parent).len(), 0);
}

#[test]
fn trace_run() {
    let files = vec![
        ("1".to_string(), "root".to_string()),
        ("1.1".to_string(), "parent_id: 1\nsee [[2]] and [[dir/3|x]]".to_string()),
        ("1.1.1".to_string(), "parent_id: 1.1\nback [[1.1]]".to_string()),
        ("2".to_string(), "[[1.1]]".to_string()),
    ];
    let cmd = TraceCommand { document_id: "1.1".to_string(), path: None, depth: 3, backlinks: true };
    let r = cmd.run(&files);
    let refs: Vec<(String, String, TraceType, usize)> =
        r.references.iter().map(|x| (x.source.clone(), x.target.clone(), x.ref_type, x.depth)).collect();
    assert_eq!(refs, vec![
        ("1.1".to_string(), "1".to_string(), TraceType::Parent, 1),
        ("1.1".to_string(), "1.1.1".to_string(), TraceType::Child, 1),
        ("1.1".to_string(), "2".to_string(), TraceType::Link, 1),
        ("1.1".to_string(), "3".to_string(), TraceType::Link, 1),
        ("1.1.1".to_string(), "1.1".to_string(), TraceType::Backlink, 1),
        ("2".to_string(), "1.1".to_string(), TraceType::Backlink, 1),
    ]);
    assert_eq!(r.depth_reached, 1);
}
