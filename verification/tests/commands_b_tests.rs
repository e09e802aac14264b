use oc_diagdoc::commands::deps::{Cycle, Dependency, DependencyType, DepsCommand, DepsResult};
use oc_diagdoc::commands::diff::{ChangeType, DiffChange, DiffCommand, DiffResult};
use oc_diagdoc::commands::export::{ExportCommand, ExportFormat, ExportResult};

fn deps_cmd(detect_cycles: bool) -> DepsCommand {
    DepsCommand {
        path: None,
        root: None,
        detect_cycles,
        mermaid: false,
        depth: None,
        direction: "both".to_string(),
        impact: None,
        orphans: false,
        graph: false,
        format: "table".to_string(),
        output: None,
    }
}

#[test]
fn test_deps_result_new() {
    let result = DepsResult::new();
    assert!(!result.has_cycles());
}

#[test]
fn test_cycle_to_string() {
    let cycle = Cycle::new(vec!["A".to_string(), "B".to_string(), "C".to_string()]);
    assert_eq!(cycle.to_string(), "A → B → C → A");
}

#[test]
fn deps_test_to_mermaid() {
    let mut result = DepsResult::new();
    result.dependencies.push(Dependency {
        from: "1.1".to_string(),
        to: "1.2".to_string(),
        dep_type: DependencyType::Link,
    });
    let mermaid = result.to_mermaid();
    assert!(mermaid.contains("graph TD"));
    assert!(mermaid.contains("1_1 --> 1_2"));
}

#[test]
fn test_dependency_type() {
    let dep = Dependency { from: "A".to_string(), to: "B".to_string(), dep_type: DependencyType::Hierarchy };
    assert_eq!(dep.dep_type, DependencyType::Hierarchy);
}

#[test]
fn deps_analysis_of_documents() {
    let files = vec![
        ("a".to_string(), "parent_id: null\nSee [[b]] and [x](dir/c.md) and [y](http://z.md)".to_string()),
        ("b".to_string(), "parent_id: a\nback to [[a]]".to_string()),
        ("c".to_string(), "parent_id: ghost\n".to_string()),
    ];
    let r = deps_cmd(true).run(&files);
    let deps: Vec<(String, String, DependencyType)> =
        r.dependencies.iter().map(|d| (d.from.clone(), d.to.clone(), d.dep_type)).collect();
    assert_eq!(deps, vec![
        ("a".to_string(), "b".to_string(), DependencyType::Link),
        ("a".to_string(), "c".to_string(), DependencyType::Link),
        ("a".to_string(), "b".to_string(), DependencyType::Hierarchy),
        ("b".to_string(), "a".to_string(), DependencyType::Link),
        ("ghost".to_string(), "c".to_string(), DependencyType::Hierarchy),
    ]);
    assert_eq!(r.root_nodes, vec!["a"]);
    assert_eq!(r.leaf_nodes, vec!["b", "c"]);
    let orphans: Vec<(String, Option<String>, String)> =
        r.orphan_nodes.iter().map(|o| (o.id.clone(), o.invalid_parent.clone(), o.reason.clone())).collect();
    assert_eq!(orphans, vec![
        ("a".to_string(), None, "no_parent".to_string()),
        ("c".to_string(), Some("ghost".to_string()), "missing_parent".to_string()),
    ]);
    assert!(r.has_cycles());
    assert_eq!(r.cycles[0].to_string(), "a → b → a");
    let r = deps_cmd(false).run(&files);
    assert!(!r.has_cycles());
}

#[test]
fn test_diff_result_new() {
    let result = DiffResult::new("a", "b");
    assert_eq!(result.from_ref, "a");
}

#[test]
fn test_diff_counts() {
    let mut result = DiffResult::new("a", "b");
    result.changes.push(DiffChange {
        path: "a.md".to_string(),
        change_type: ChangeType::Added,
        old_value: None,
        new_value: Some("new".to_string()),
    });
    result.changes.push(DiffChange {
        path: "b.md".to_string(),
        change_type: ChangeType::Modified,
        old_value: Some("old".to_string()),
        new_value: Some("new".to_string()),
    });
    assert_eq!(result.added_count(), 1);
    assert_eq!(result.modified_count(), 1);
}

#[test]
fn test_change_type() {
    assert_eq!(ChangeType::Added, ChangeType::Added);
    assert_ne!(ChangeType::Added, ChangeType::Deleted);
}

#[test]
fn test_diff_command_fields() {
    let cmd = DiffCommand {
        from: "v1".to_string(),
        to: "v2".to_string(),
        stat: false,
        path: None,
        side_by_side: true,
        context: 3,
    };
    assert!(cmd.side_by_side);
    assert_eq!(cmd.context, 3);
}

#[test]
fn test_render_side_by_side() {
    let from = "line1\nline2\nline3";
    let to = "line1\nmodified\nline3";
    let output = DiffCommand::render_side_by_side(from, to, 60);
    assert!(output.contains("DIFF"));
}

#[test]
fn diff_side_by_side_layout() {
    let output = DiffCommand::render_side_by_side("a\nb", "a\nc", 12);
    let lines: Vec<&str> = output.lines().collect();
    assert_eq!(lines[0], " DIFF SIDE-BY-SIDE ");
    assert_eq!(lines[1], "FROM │  TO ");
    assert_eq!(lines[2], "─────┼─────");
    assert_eq!(lines[3], "a   │ a   ");
    assert_eq!(lines[4], "b   │*c   ");
}

#[test]
fn diff_between_states() {
    let cmd = DiffCommand { from: "old".to_string(), to: "HEAD".to_string(), stat: false, path: None, side_by_side: false, context: 3 };
    let from = vec![
        ("a.md".to_string(), "one\ntwo".to_string()),
        ("b.md".to_string(), "same".to_string()),
        ("gone.md".to_string(), "x".to_string()),
    ];
    let to = vec![
        ("a.md".to_string(), "one".to_string()),
        ("b.md".to_string(), "same".to_string()),
        ("new.md".to_string(), "y".to_string()),
    ];
    let r = cmd.run(&from, &to);
    assert_eq!(r.added_count(), 1);
    assert_eq!(r.deleted_count(), 1);
    assert_eq!(r.modified_count(), 1);
    assert_eq!(r.changes[0].path, "new.md");
    assert_eq!(r.changes[1].path, "gone.md");
    assert_eq!(r.changes[2].path, "a.md");
    assert_eq!(r.changes[2].old_value.as_deref(), Some("2 líneas"));
    assert_eq!(r.changes[2].new_value.as_deref(), Some("1 líneas (+0 -1 líneas)"));
    assert_eq!(cmd.to_dir("Datos"), "Datos");
    assert_eq!(cmd.from_dir("Datos"), "Datos/old");
}

#[test]
fn test_export_format_from_str() {
    assert_eq!(ExportFormat::from_str("pdf"), Some(ExportFormat::Pdf));
    assert_eq!(ExportFormat::from_str("html"), Some(ExportFormat::Html));
}

#[test]
fn test_export_format_extension() {
    assert_eq!(ExportFormat::Pdf.extension(), "pdf");
    assert_eq!(ExportFormat::Latex.extension(), "tex");
}

#[test]
fn test_export_result_new() {
    let result = ExportResult::new("out.pdf", "pdf");
    assert_eq!(result.format, "pdf");
}

fn export_cmd(format: &str) -> ExportCommand {
    ExportCommand {
        format: format.to_string(),
        output: None,
        path: None,
        toc: false,
        include_metadata: false,
        prefix_rename: false,
        modules: None,
        zip: false,
        template: None,
        single_file: false,
        max_tokens: None,
        compact: false,
        tree: false,
        stats: false,
    }
}

#[test]
fn test_export_command_format_enum() {
    let cmd = export_cmd("latex");
    assert_eq!(cmd.format_enum(), ExportFormat::Latex);
}

#[test]
fn export_plan_filters_and_renames() {
    let mut cmd = export_cmd("md");
    cmd.prefix_rename = true;
    cmd.modules = Some(vec!["Core".to_string()]);
    let files = vec![
        ("a.md".to_string(), "a".to_string(), "module: Core Lib.v2\nsome words here".to_string()),
        ("b.md".to_string(), "b".to_string(), "module: Other\nx".to_string()),
    ];
    let (r, entries) = cmd.plan(&files);
    assert_eq!(r.files_exported, 1);
    assert_eq!(entries[0].exported_name, "Core_Lib-v2_a.md");
    assert_eq!(entries[0].module.as_deref(), Some("Core Lib.v2"));
    assert_eq!(entries[0].word_count, 6);
    assert_eq!(r.total_bytes, files[0].2.len());
    assert_eq!(r.output_path, "export");
    assert_eq!(ExportFormat::from_str("WORD"), Some(ExportFormat::Docx));
    assert_eq!(export_cmd("unknown").format_enum(), ExportFormat::Markdown);
}
