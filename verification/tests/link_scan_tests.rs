use oc_diagdoc::commands::stats::ago_text;
use oc_diagdoc::commands::stats::heat_bar_len;
use oc_diagdoc::commands::export::{ExportCommand, ExportFileEntry};
use oc_diagdoc::commands::lint::{LintCommand, LintIssue, LintResult, LintSeverity};
use oc_diagdoc::commands::links::{link_targets, LinkStatus, LinkTarget, LinksCommand, ScanDoc};
use oc_diagdoc::pipeline::{LinkValidationStage, PipelineContext};

fn cmd(include_external: bool) -> LinksCommand {
    LinksCommand { path: None, broken_only: false, fix: false, include_external }
}

fn target(t: &str, line: usize, wiki: bool) -> LinkTarget {
    LinkTarget { target: t.to_string(), line, wiki }
}

#[test]
fn link_targets_wiki_before_markdown_per_line() {
    let content = "Ver [t](a.md) y [[doc]]\nOtra [x](https://e.com) [[dir/b]]\n";
    let ts = link_targets(content);
    let got: Vec<(String, usize, bool)> = ts.iter().map(|t| (t.target.clone(), t.line, t.wiki)).collect();
    assert_eq!(
        got,
        vec![
            ("doc".to_string(), 1, true),
            ("a.md".to_string(), 1, false),
            ("dir/b".to_string(), 2, true),
            ("https://e.com".to_string(), 2, false),
        ]
    );
}

#[test]
fn link_targets_empty_content() {
    assert!(link_targets("").is_empty());
    assert!(link_targets("sin enlaces\n").is_empty());
}

#[test]
fn classify_marks_each_kind() {
    let stems = vec!["doc".to_string(), "src".to_string()];
    let paths = vec!["d/doc.md".to_string(), "d/src.md".to_string()];
    let targets = vec![
        target("doc", 1, true),
        target("dir/b", 2, true),
        target("https://e.com", 3, false),
        target("missing.md", 4, false),
        target("src", 5, true),
    ];
    let resolves = vec![false, false, false, false, false];
    let r = cmd(false).classify("d/src.md", "src", &targets, &resolves, &stems, &paths);
    let st: Vec<LinkStatus> = r.links.iter().map(|l| l.status).collect();
    assert_eq!(st, vec![LinkStatus::Valid, LinkStatus::NonStandard, LinkStatus::Broken, LinkStatus::Circular]);
    assert_eq!(r.links[1].normalized, Some("b".to_string()));
    assert_eq!(r.links[2].line, 4);
    assert_eq!(r.total_valid, 1);
    assert_eq!(r.total_broken, 1);
    assert_eq!(r.total_nonstandard, 1);
    assert_eq!(r.total_circular, 1);
    assert_eq!(r.total_external, 0);

    let r2 = cmd(true).classify("d/src.md", "src", &targets, &resolves, &stems, &paths);
    assert_eq!(r2.links.len(), 5);
    assert_eq!(r2.links[2].status, LinkStatus::External);
    assert_eq!(r2.total_external, 1);
}

#[test]
fn classify_resolving_target_is_valid() {
    let stems: Vec<String> = vec![];
    let paths: Vec<String> = vec![];
    let targets = vec![target("img/a.png", 1, false)];
    let r = cmd(false).classify("x.md", "x", &targets, &vec![true], &stems, &paths);
    assert_eq!(r.links[0].status, LinkStatus::Valid);
    let r = cmd(false).classify("x.md", "x", &targets, &vec![false], &stems, &paths);
    assert_eq!(r.links[0].status, LinkStatus::Broken);
}

#[test]
fn scan_documents_in_turn() {
    let stems = vec!["a".to_string(), "b".to_string()];
    let paths = vec!["a.md".to_string(), "b.md".to_string()];
    let ta = link_targets("[[b]] [y](nada.md)");
    let tb = link_targets("[[a]]\n[[b]]");
    let docs: Vec<ScanDoc> = vec![
        ("a.md".to_string(), "a".to_string(), ta, vec![false, false]),
        ("b.md".to_string(), "b".to_string(), tb, vec![false, false]),
    ];
    let r = cmd(false).scan(&docs, &stems, &paths);
    let got: Vec<(String, String, usize, LinkStatus)> =
        r.links.iter().map(|l| (l.source.clone(), l.target.clone(), l.line, l.status)).collect();
    assert_eq!(
        got,
        vec![
            ("a.md".to_string(), "b".to_string(), 1, LinkStatus::Valid),
            ("a.md".to_string(), "nada.md".to_string(), 1, LinkStatus::Broken),
            ("b.md".to_string(), "a".to_string(), 1, LinkStatus::Valid),
            ("b.md".to_string(), "b".to_string(), 2, LinkStatus::Circular),
        ]
    );
    assert_eq!(r.total_valid, 2);
    assert_eq!(r.total_broken, 1);
    assert_eq!(r.total_circular, 1);
    assert_eq!(r.broken_links().len(), 1);
}

#[test]
fn md_link_targets_skip_http() {
    let t = LinkValidationStage::md_link_targets("[a](x.md) y [b](http://e.com) y [c](z) [[w]]");
    assert_eq!(t, vec!["x.md".to_string(), "z".to_string()]);
    assert!(LinkValidationStage::md_link_targets("").is_empty());
}

#[test]
fn broken_link_warnings_in_order() {
    let t = vec!["x.md".to_string(), "z".to_string(), "q.md".to_string()];
    let w = LinkValidationStage::broken_link_warnings(&t, &vec![true, false, false]);
    assert_eq!(w, vec!["Broken link: z".to_string(), "Broken link: q.md".to_string()]);
    assert!(LinkValidationStage::broken_link_warnings(&t, &vec![true, true, true]).is_empty());
}

#[test]
fn link_validation_report_adds_warnings() {
    let mut ctx = PipelineContext::new("d/t.md".to_string(), "[a](x.md) [b](https://e.com) [c](y.md)".to_string());
    ctx.add_warning("antes");
    LinkValidationStage.report(&mut ctx, &vec![false, true]);
    assert_eq!(ctx.warnings, vec!["antes".to_string(), "Broken link: x.md".to_string()]);
    assert!(ctx.errors.is_empty());
}

#[test]
fn ago_text_units() {
    assert_eq!(ago_text(0), "0s");
    assert_eq!(ago_text(59), "59s");
    assert_eq!(ago_text(60), "1m");
    assert_eq!(ago_text(3599), "59m");
    assert_eq!(ago_text(3600), "1h");
    assert_eq!(ago_text(86399), "23h");
    assert_eq!(ago_text(86400), "1d");
    assert_eq!(ago_text(200000), "2d");
}

#[test]
fn heat_bar_len_scaled_to_thirty() {
    assert_eq!(heat_bar_len(10, 10), 30);
    assert_eq!(heat_bar_len(5, 10), 15);
    assert_eq!(heat_bar_len(1, 7), 4);
    assert_eq!(heat_bar_len(0, 3), 0);
}

#[test]
fn export_doc_title_and_modules() {
    assert_eq!(ExportCommand::doc_title("1.1", "---\ntitle: \"Intro \"\n---\n"), "Intro");
    assert_eq!(ExportCommand::doc_title("1.1", "sin título\n"), "1.1");
    let e = |m: Option<&str>| ExportFileEntry {
        original_name: "a.md".to_string(),
        exported_name: "a.md".to_string(),
        module: m.map(|s| s.to_string()),
        word_count: 1,
    };
    let entries = vec![e(Some("M1")), e(None), e(Some("M2")), e(Some("M1"))];
    assert_eq!(ExportCommand::modules_of(&entries), vec!["M1".to_string(), "M2".to_string()]);
}

#[test]
fn lint_record_issues_counts_file_and_filters() {
    let issue = |code: &str, severity: LintSeverity| LintIssue {
        code: code.to_string(),
        message: String::new(),
        file: "a.md".to_string(),
        line: None,
        severity,
        fixable: false,
    };
    let mut cmd = LintCommand {
        path: None,
        fix: false,
        dry_run: false,
        errors_only: true,
        json: false,
        rule: None,
        summary: false,
        show_fixes: false,
        explain: None,
    };
    let mut r = LintResult::new();
    cmd.record_issues(&mut r, vec![issue("L001", LintSeverity::Warning), issue("L002", LintSeverity::Error)]);
    cmd.record_issues(&mut r, vec![]);
    assert_eq!(r.files_with_issues, 1);
    assert_eq!(r.issues.len(), 1);
    assert_eq!(r.issues[0].code, "L002");
    cmd.errors_only = false;
    cmd.record_issues(&mut r, vec![issue("L003", LintSeverity::Warning)]);
    assert_eq!(r.files_with_issues, 2);
    assert_eq!(r.issues.len(), 2);
}
