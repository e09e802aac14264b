use oc_diagdoc::commands::archive::{mark_archived_references, ArchiveCommand, ArchiveResult};
use oc_diagdoc::commands::audit::{AuditCategory, AuditFinding, AuditResult};
use oc_diagdoc::commands::batch::{parse_batch_content, BatchResult};
use oc_diagdoc::commands::ci::{CiCheck, CiCommand, CiResult};
use oc_diagdoc::commands::compress::{CompressCommand, CompressResult};
use oc_diagdoc::commands::coverage::{CoverageRange, CoverageResult};

fn finding(category: AuditCategory, severity: u8, title: &str) -> AuditFinding {
    AuditFinding {
        category,
        severity,
        title: title.to_string(),
        description: "d".to_string(),
        recommendation: "r".to_string(),
        affected_files: vec![],
    }
}

fn archive_cmd(status: Option<&str>, doc_id: Option<&str>) -> ArchiveCommand {
    ArchiveCommand {
        path: None,
        output: None,
        status: status.map(|s| s.to_string()),
        compress: false,
        doc_id: doc_id.map(|s| s.to_string()),
        dry_run: false,
        update_refs: false,
    }
}

#[test]
fn test_archive_result_new() {
    let result = ArchiveResult::new("out.tar.gz");
    assert_eq!(result.files_archived, 0);
}

#[test]
fn test_archive_command_fields() {
    let cmd = ArchiveCommand {
        path: None,
        output: Some("test.tar.gz".to_string()),
        status: None,
        compress: true,
        doc_id: None,
        dry_run: true,
        update_refs: false,
    };
    assert!(cmd.dry_run);
}

#[test]
fn test_archive_with_status() {
    let cmd = ArchiveCommand {
        path: None,
        output: None,
        status: Some("deprecated".to_string()),
        compress: true,
        doc_id: None,
        dry_run: false,
        update_refs: true,
    };
    assert!(cmd.update_refs);
}

#[test]
fn archive_default_statuses() {
    let cmd = archive_cmd(None, None);
    assert_eq!(cmd.archive_statuses(), vec!["deprecated", "obsolete", "archived"]);
    let cmd = archive_cmd(Some(" Draft , old "), None);
    assert_eq!(cmd.archive_statuses(), vec!["Draft", "old"]);
}

#[test]
fn archive_selection_by_status_and_id() {
    let cmd = archive_cmd(None, Some("1.2"));
    assert!(cmd.should_archive(Some("  Deprecated "), None));
    assert!(!cmd.should_archive(Some("active"), None));
    assert!(cmd.should_archive(None, Some(" 1.2 ")));
    assert!(!cmd.should_archive(None, Some("1.3")));
    assert!(cmd.should_archive_content("---\nstatus: obsolete\n---\n"));
    assert!(!cmd.should_archive_content("---\nstatus: active\ndocument_id: 9\n---\n"));
}

#[test]
fn archive_marks_references() {
    let ids = vec!["1.2".to_string()];
    let (c, changed) = mark_archived_references("see [[1.2]] and parent_id: 1.2", &ids);
    assert!(changed);
    assert_eq!(c, "see [[1.2] (ARCHIVADO)] (ARCHIVADO) and parent_id: 1.2 (ARCHIVADO)");
    let (c, changed) = mark_archived_references("nothing here", &ids);
    assert!(!changed);
    assert_eq!(c, "nothing here");
}

#[test]
fn test_audit_result_new() {
    let result = AuditResult::new();
    assert_eq!(result.score, 100);
}

#[test]
fn test_add_finding() {
    let mut result = AuditResult::new();
    result.add_finding(AuditFinding {
        category: AuditCategory::Structure,
        severity: 3,
        title: "Missing index".to_string(),
        description: "desc".to_string(),
        recommendation: "rec".to_string(),
        affected_files: vec![],
    });
    assert_eq!(result.score, 94);
}

#[test]
fn test_critical_count() {
    let mut result = AuditResult::new();
    result.add_finding(finding(AuditCategory::Security, 5, "Critical"));
    assert_eq!(result.critical_count(), 1);
}

#[test]
fn test_score_saturation() {
    let mut result = AuditResult::new();
    for _ in 0..100 {
        result.add_finding(finding(AuditCategory::Content, 5, "t"));
    }
    assert_eq!(result.score, 0);
}

#[test]
fn audit_sorting_and_recommendations() {
    let mut result = AuditResult::new();
    result.add_finding(finding(AuditCategory::Links, 2, "low"));
    result.add_finding(finding(AuditCategory::Content, 5, "high"));
    result.add_finding(finding(AuditCategory::Links, 2, "low2"));
    let sorted: Vec<&str> = result.sorted_by_severity().iter().map(|f| f.title.as_str()).collect();
    assert_eq!(sorted, vec!["high", "low", "low2"]);
    let recs = result.prioritized_recommendations();
    assert_eq!(recs[0], "1. [S5] high (~60min): r");
    assert_eq!(recs[2], "3. [S2] low2 (~5min): r");
    assert_eq!(result.by_category(&AuditCategory::Links).len(), 2);
    assert_eq!(AuditResult::estimate_effort(&finding(AuditCategory::Links, 1, "x")), 2);
}

#[test]
fn test_batch_result_new() {
    let result = BatchResult::new("test");
    assert_eq!(result.succeeded, 0);
    assert_eq!(result.failed, 0);
}

#[test]
fn test_add_success() {
    let mut result = BatchResult::new("test");
    result.add_success("a.md", "ok");
    assert_eq!(result.succeeded, 1);
}

#[test]
fn batch_file_parsing() {
    let cmds = parse_batch_content("# comment\n\n  verify --strict  \nstats\n#x\n");
    assert_eq!(cmds.len(), 2);
    assert_eq!(cmds[0].name, "verify");
    assert_eq!(cmds[0].args, vec!["--strict"]);
    assert_eq!(cmds[1].name, "stats");
    assert!(cmds[1].args.is_empty());
}

#[test]
fn test_ci_check_pass() {
    let check = CiCheck::pass("test", "ok", 10);
    assert!(check.passed);
}

#[test]
fn test_ci_check_fail() {
    let check = CiCheck::fail("test", "error", 10);
    assert!(!check.passed);
}

#[test]
fn test_ci_result_all_passed() {
    let mut result = CiResult::new();
    result.add_check(CiCheck::pass("a", "ok", 10));
    result.add_check(CiCheck::pass("b", "ok", 10));
    assert!(result.all_passed);
    assert_eq!(result.exit_code(), 0);
}

#[test]
fn test_ci_result_with_failure() {
    let mut result = CiResult::new();
    result.add_check(CiCheck::pass("a", "ok", 10));
    result.add_check(CiCheck::fail("b", "error", 10));
    assert!(!result.all_passed);
    assert_eq!(result.exit_code(), 1);
}

#[test]
fn ci_run_checks() {
    let cmd = CiCommand { path: None, strict: false, json: false };
    let r = cmd.run();
    assert_eq!(r.checks.len(), 3);
    assert_eq!(r.total_duration_ms, 180);
    assert!(r.all_passed);
}

#[test]
fn test_compress_result_new() {
    let result = CompressResult::new("out.md");
    assert_eq!(result.modules_included, 0);
}

#[test]
fn test_compress_result_summary() {
    let mut result = CompressResult::new("out.md");
    result.modules_included = 5;
    result.documents_included = 100;
    result.total_words = 50000;
    result.output_bytes = 250000;
    let summary = result.summary();
    assert!(summary.contains("5 módulos"));
    assert!(summary.contains("100 docs"));
}

#[test]
fn compress_compiles_documents() {
    let cmd = CompressCommand {
        path: None,
        output: None,
        format: "pdf".to_string(),
        modules: None,
        no_drafts: true,
        split_by_module: false,
    };
    assert_eq!(cmd.output_path(), "compiled.pdf");
    let docs = vec![
        ("1.1 Intro".to_string(), "---\ntitle: Intro\nmodule: M1\n---\nHello world".to_string()),
        ("1.2".to_string(), "---\ndraft: true\n---\nSkipped".to_string()),
        ("2.1".to_string(), "No front matter here".to_string()),
    ];
    let (r, out, _, _, _) = cmd.compile(&docs, "2024-01-01 00:00:00");
    assert_eq!(r.documents_included, 2);
    assert_eq!(r.modules_included, 1);
    assert_eq!(r.total_words, 8 + 4);
    assert!(out.starts_with("# 📑 Tabla de Contenidos\n\n- [Intro](#1-1-intro)\n- [2.1](#2-1)\n"));
    assert!(out.contains("## Intro {1.1 Intro}\n\nHello world\n\n"));
    assert!(!out.contains("Skipped"));
    assert_eq!(r.output_bytes, out.len());
    assert_eq!(r.output_path, "compiled.pdf");
}

#[test]
fn test_range_contains() {
    let range = CoverageRange::new("Test", 100, Some(200), "🟦");
    assert!(!range.contains(50));
    assert!(range.contains(100));
    assert!(range.contains(150));
    assert!(range.contains(200));
    assert!(!range.contains(201));
}

#[test]
fn test_add_document() {
    let mut result = CoverageResult::new();
    result.add_document(150);
    result.add_document(350);
    assert_eq!(result.total_documents, 2);
    assert_eq!(result.avg_words, 250);
}

#[test]
fn coverage_ranges_count_documents() {
    let mut result = CoverageResult::new();
    assert_eq!(result.ranges.len(), 8);
    result.add_document(0);
    result.add_document(50);
    result.add_document(5000);
    assert_eq!(result.ranges[0].count, 1);
    assert_eq!(result.ranges[1].count, 1);
    assert_eq!(result.ranges[7].count, 1);
    assert_eq!(result.total_words, 5050);
}
