use oc_diagdoc::commands::fix::{parse_and_fix_table, FixCommand, FixResult};
use oc_diagdoc::commands::gen::{DocType, GenCommand, GenResult, TemplateVars};
use oc_diagdoc::commands::help::{HelpCommand, HelpResult, HelpSection};
use oc_diagdoc::commands::init::{InitCommand, InitPreset, InitResult};
use oc_diagdoc::commands::links::{Link, LinkStatus, LinksCommand, LinksResult};
use oc_diagdoc::commands::lint::{LintCommand, LintIssue, LintResult, LintSeverity};
use oc_diagdoc::commands::migrate::{MigrateCommand, MigrateResult};
use oc_diagdoc::commands::module::{ModuleCommand, ModuleInfo, ModuleResult};

#[test]
fn test_extract_id_from_wikilink() {
    assert_eq!(FixCommand::extract_id_from_wikilink("[[1.2.3 nombre]]"), Some("1.2.3".to_string()));
    assert_eq!(FixCommand::extract_id_from_wikilink("  [[1.0 contexto]]  "), Some("1.0".to_string()));
}

#[test]
fn fix_extract_id_and_descendants() {
    assert_eq!(FixCommand::extract_id("1.2.3 nombre"), Some("1.2.3".to_string()));
    assert_eq!(FixCommand::extract_id("sin_id"), None);
    let all = vec!["1".to_string(), "1.1".to_string(), "1.2".to_string(), "1.2.1".to_string(), "1.2.2".to_string(), "2".to_string()];
    assert_eq!(FixCommand::count_descendants("1", &all), 4);
    assert_eq!(FixCommand::count_descendants("1.2", &all), 2);
    assert_eq!(FixCommand::count_descendants("2", &all), 0);
    let stems = vec!["1.1 intro".to_string(), "notes".to_string(), "2 x".to_string()];
    assert_eq!(FixCommand::collect_all_ids(&stems), vec!["1.1", "2"]);
    assert_eq!(FixResult::new().rows_updated, 0);
}

#[test]
fn fix_corrects_nietos_column() {
    let all = vec!["1.2.1".to_string(), "1.2.2".to_string(), "1.3.1".to_string()];
    let content = "| ID | Título | Hijos | Nietos |\n|---|---|---|---|\n| [[1.2 a]] | A | 1 | 0 |\n| [[1.3 b]] | B | 1 | 1 |\ntext";
    let (out, n) = parse_and_fix_table(content, &all);
    assert_eq!(n, 1);
    assert_eq!(out, "| ID | Título | Hijos | Nietos |\n|---|---|---|---|\n| [[1.2 a]] | A | 1 | 2 |\n| [[1.3 b]] | B | 1 | 1 |\ntext");
    assert!(FixCommand::has_nietos_table(content));
}

#[test]
fn test_gen_result_new() {
    let result = GenResult::new("default");
    assert_eq!(result.template_used, "default");
}

#[test]
fn test_doc_type_from_str() {
    assert_eq!(DocType::from_str("module"), DocType::Module);
    assert_eq!(DocType::from_str("doc"), DocType::Document);
}

#[test]
fn test_doc_type_custom() {
    match DocType::from_str("special") {
        DocType::Custom(s) => assert_eq!(s, "special"),
        _ => panic!("Expected Custom variant"),
    }
}

fn gen_cmd(doc_type: &str) -> GenCommand {
    GenCommand {
        doc_type: doc_type.to_string(),
        doc_id: "1.2.3".to_string(),
        output: None,
        template: None,
        title: None,
        parent_id: None,
        module: Some("1".to_string()),
        var: Some(vec!["owner=ana".to_string(), "bad".to_string(), "owner=eva".to_string()]),
        validate: false,
    }
}

#[test]
fn gen_helpers_and_render() {
    let cmd = gen_cmd("readme");
    assert_eq!(cmd.calculate_parent_id("1.2.3"), Some("1.2".to_string()));
    assert_eq!(cmd.calculate_parent_id("7"), None);
    let stems = vec!["1.1".to_string(), "1.2".to_string(), "2.1".to_string()];
    assert_eq!(cmd.auto_generate_id(&stems), "1.3");
    let vars = cmd.parse_custom_vars();
    assert_eq!(vars, vec![("owner".to_string(), "eva".to_string())]);
    let tv = TemplateVars {
        id: "1.2.3".to_string(),
        title: cmd.title_for("1.2.3"),
        parent_id: Some("1.2".to_string()),
        module: None,
        created: "2024-01-01".to_string(),
        updated: "2024-01-02".to_string(),
        custom: vars,
    };
    let out = cmd.render_template(&tv);
    assert!(out.starts_with("---\ntitle: \"Documento 1.2.3\"\ndocument_id: \"1.2.3\"\nparent_id: \"1.2\"\ncreated: \"2024-01-01\""));
    assert!(out.ends_with("# Documento 1.2.3\n\n[Contenido]\n"));
    assert_eq!(cmd.template_name(), "default");
    let mut g = GenResult::new("t");
    g.add_file("new.md");
    assert_eq!(g.created_files.len(), 1);
}

#[test]
fn test_help_section_new() {
    let section = HelpSection::new("Title", "Content");
    assert_eq!(section.title, "Title");
}

#[test]
fn test_help_result_new() {
    let result = HelpResult::new("test");
    assert_eq!(result.topic, "test");
}

#[test]
fn test_available_topics() {
    let topics = HelpCommand::available_topics();
    assert!(topics.contains(&"general"));
    assert!(topics.contains(&"verify"));
}

#[test]
fn help_run_sections() {
    let cmd = HelpCommand { topic: Some("verify".to_string()), list: false };
    let result = cmd.run();
    assert_eq!(result.topic, "verify");
    assert_eq!(result.sections.len(), 2);
}

fn init_cmd(preset: &str) -> InitCommand {
    InitCommand {
        path: ".".to_string(),
        preset: preset.to_string(),
        force: false,
        template: "proyecto".to_string(),
        name: None,
        dry_run: false,
    }
}

#[test]
fn test_init_result_new() {
    let result = InitResult::new(".");
    assert_eq!(result.total_items(), 0);
}

#[test]
fn test_init_result_total() {
    let mut result = InitResult::new(".");
    result.files_created.push("a".to_string());
    result.directories_created.push("b".to_string());
    assert_eq!(result.total_items(), 2);
}

#[test]
fn test_preset_enum() {
    let cmd = init_cmd("minimal");
    assert_eq!(cmd.preset_enum(), InitPreset::Minimal);
}

#[test]
fn test_init_command_preset() {
    let mut cmd = init_cmd("full");
    cmd.force = true;
    cmd.name = Some("TestProject".to_string());
    assert_eq!(cmd.preset_enum(), InitPreset::Full);
    assert!(cmd.force);
}

#[test]
fn init_layout_and_files() {
    let mut cmd = init_cmd("full");
    cmd.path = "proj".to_string();
    assert_eq!(cmd.directories(), vec!["proj/docs", "proj/templates", "proj/docs/modulos", "proj/assets",
        "proj/docs/drafts", "proj/docs/archive", "proj/scripts"]);
    let files = cmd.base_files("2024-05-01");
    assert_eq!(files.len(), 3);
    assert_eq!(files[0].0, "proj/oc_diagdoc.yaml");
    assert!(files[0].1.contains("name: \"proj\""));
    assert!(files[1].1.starts_with("---\ntitle: \"Contextualizador - proj\""));
    cmd.template = "modulo".to_string();
    assert_eq!(cmd.directories(), vec!["proj/docs/modulos/nuevo_modulo", "proj/docs/modulos/nuevo_modulo/assets"]);
    assert_eq!(init_cmd("std").preset_enum(), InitPreset::Standard);
    assert_eq!(init_cmd("other").preset_enum(), InitPreset::Custom);
}

fn link(status: LinkStatus) -> Link {
    Link { source: "a.md".to_string(), target: "b.md".to_string(), line: 10, status, normalized: None }
}

#[test]
fn test_add_link() {
    let mut result = LinksResult::new();
    result.add_link(link(LinkStatus::Valid));
    assert_eq!(result.total_valid, 1);
}

#[test]
fn links_counts_and_status() {
    let mut result = LinksResult::new();
    result.add_link(link(LinkStatus::Broken));
    result.add_link(link(LinkStatus::NonStandard));
    assert_eq!(result.broken_links().len(), 1);
    assert_eq!(result.total_nonstandard, 1);
    assert!(result.links[0].is_broken());
    let cmd = LinksCommand { path: None, broken_only: false, fix: false, include_external: false };
    let stems = vec!["1.1 Intro".to_string(), "guide".to_string()];
    let paths = vec!["Datos/1.1 Intro.md".to_string(), "Datos/x/guide.md".to_string()];
    assert_eq!(cmd.check_link_status("guide", "guide", false, &stems, &paths), LinkStatus::Circular);
    assert_eq!(cmd.check_link_status("x", "1.1", false, &stems, &paths), LinkStatus::Valid);
    assert_eq!(cmd.check_link_status("x", "dir/GUIDE|alias", false, &stems, &paths), LinkStatus::Valid);
    assert_eq!(cmd.check_link_status("x", "missing", false, &stems, &paths), LinkStatus::Broken);
    assert_eq!(cmd.check_link_status("x", "missing", true, &stems, &paths), LinkStatus::Valid);
    assert!(cmd.file_exists("GUIDE", &stems));
}

#[test]
fn test_lint_result_new() {
    let result = LintResult::new();
    assert!(result.is_clean());
}

#[test]
fn test_lint_issue_error() {
    let issue = LintIssue::error("E001", "Missing title", "test.md");
    assert_eq!(issue.severity, LintSeverity::Error);
}

#[test]
fn test_error_count() {
    let mut result = LintResult::new();
    result.issues.push(LintIssue::error("E001", "err", "a.md"));
    result.issues.push(LintIssue::warning("W001", "warn", "b.md"));
    assert_eq!(result.error_count(), 1);
    assert_eq!(result.warning_count(), 1);
}

#[test]
fn test_is_clean() {
    let mut result = LintResult::new();
    assert!(result.is_clean());
    result.issues.push(LintIssue::error("E001", "err", "a.md"));
    assert!(!result.is_clean());
}

fn lint_cmd(rule: Option<&str>) -> LintCommand {
    LintCommand {
        path: None,
        fix: false,
        dry_run: false,
        errors_only: false,
        json: false,
        rule: rule.map(|r| r.to_string()),
        summary: false,
        show_fixes: false,
        explain: None,
    }
}

#[test]
fn lint_basic_rules() {
    let content = "# Title\n### Skipped  \n```\ncode\n```\n## Dup\n## dup\ntext";
    let issues = lint_cmd(None).lint_basic("doc.md", content);
    let codes: Vec<&str> = issues.iter().map(|i| i.code.as_str()).collect();
    assert_eq!(codes, vec!["L001", "L002", "L003", "L004", "L006", "L007"]);
    assert_eq!(issues[1].message, "Header salta de H1 a H3");
    assert_eq!(issues[1].line, Some(2));
    assert_eq!(issues[5].message, "Header duplicado (primera aparición línea 6)");
    let only = lint_cmd(Some("L004")).lint_basic("doc.md", content);
    assert_eq!(only.len(), 1);
    let fm = lint_cmd(Some("L008")).lint_basic("doc.md", "---\ntitle: x\n---\n");
    assert_eq!(fm.len(), 1);
    assert_eq!(fm[0].message, "Campo obligatorio faltante: id");
}

#[test]
fn lint_fix_file() {
    let cmd = lint_cmd(None);
    assert_eq!(cmd.fix_file("a  \nb\n\n\n"), Some("a\nb\n".to_string()));
    assert_eq!(cmd.fix_file("a\nb\n"), None);
    assert_eq!(cmd.fix_file("a"), Some("a\n".to_string()));
}

#[test]
fn test_migrate_result_new() {
    let result = MigrateResult::new("1.0", "2.0");
    assert_eq!(result.from_version, "1.0");
}

#[test]
fn test_migrate_command_run() {
    let cmd = MigrateCommand { path: None, to: Some("3.0".to_string()), dry_run: false };
    let result = cmd.run();
    assert_eq!(result.to_version, "3.0");
}

#[test]
fn test_default_version() {
    let cmd = MigrateCommand { path: None, to: None, dry_run: false };
    let result = cmd.run();
    assert_eq!(result.to_version, "3.0");
    assert_eq!(result.migrations_applied.len(), 2);
}

#[test]
fn test_module_info_new() {
    let info = ModuleInfo::new("1", "Plataforma");
    assert_eq!(info.id, "1");
    assert_eq!(info.health_score, 100);
}

#[test]
fn module_test_avg_words() {
    let mut info = ModuleInfo::new("1", "Test");
    info.document_count = 10;
    info.word_count = 1000;
    assert_eq!(info.avg_words(), 100);
}

#[test]
fn test_module_result() {
    let mut result = ModuleResult::new();
    let mut m1 = ModuleInfo::new("1", "A");
    m1.document_count = 5;
    let mut m2 = ModuleInfo::new("2", "B");
    m2.document_count = 10;
    result.add_module(m1);
    result.add_module(m2);
    assert_eq!(result.total_documents(), 15);
}

#[test]
fn test_avg_words_empty() {
    let info = ModuleInfo::new("1", "Test");
    assert_eq!(info.avg_words(), 0);
}

#[test]
fn module_summary() {
    let cmd = ModuleCommand { module_id: None, path: None, list: true, json: false, create: None, move_doc: None, to: None };
    let docs = vec![
        ("a.md".to_string(), "module: Core\none two".to_string()),
        ("b.md".to_string(), "no module here".to_string()),
        ("c.md".to_string(), "module: Core\nthree".to_string()),
    ];
    let r = cmd.run(&docs);
    assert_eq!(r.modules.len(), 2);
    assert_eq!(r.modules[0].id, "Core");
    assert_eq!(r.modules[0].document_count, 2);
    assert_eq!(r.modules[0].word_count, 7);
    assert_eq!(r.modules[0].health_score, 40);
    assert_eq!(r.modules[1].id, "sin_modulo");
    let only = ModuleCommand { module_id: Some("Core".to_string()), ..cmd.clone() };
    let r = only.run(&docs);
    assert_eq!(r.modules.len(), 1);
    assert_eq!(r.modules[0].children, vec!["a.md", "c.md"]);
}
