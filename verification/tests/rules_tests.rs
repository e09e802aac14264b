use oc_diagdoc::commands::batch::BatchCommand;
use oc_diagdoc::commands::compress::CompressCommand;
use oc_diagdoc::commands::gen::GenCommand;
use oc_diagdoc::commands::lint::{LintCommand, LintSeverity};
use oc_diagdoc::commands::module::ModuleCommand;
use oc_diagdoc::fix_router::{fix_summary, AnomalyType};
use oc_diagdoc::hash::{compute_content_hash, compute_multi_file_hash, HashCache};
use oc_diagdoc::lint_docs::rule_explanation;

fn lint(rule: Option<&str>) -> LintCommand {
    LintCommand {
        path: None,
        fix: false,
        dry_run: false,
        errors_only: false,
        json: false,
        rule: rule.map(|r| r.to_string()),
        summary: false,
        show_fixes: false,
        explain: None,
    }
}

fn char_lines(content: &str) -> Vec<Vec<char>> {
    content.lines().map(|l| l.chars().collect()).collect()
}

#[test]
fn lint_table_without_separator() {
    let content = "| a | b |\n| 1 | 2 |\ntexto\n| h | h |\n|---|---|\n| 1 | 2 |\n```\n| x | y |\n```\n";
    let issues = lint(None).rule_table_headers("doc.md", &char_lines(content));
    assert_eq!(issues.len(), 1);
    assert_eq!(issues[0].code, "L009");
    assert_eq!(issues[0].line, Some(1));
    assert_eq!(issues[0].severity, LintSeverity::Warning);
    assert_eq!(issues[0].file, "doc.md");
}

#[test]
fn lint_table_last_line_row() {
    let issues = lint(None).rule_table_headers("doc.md", &char_lines("intro\n| solo |"));
    assert_eq!(issues.len(), 1);
    assert_eq!(issues[0].line, Some(2));
}

#[test]
fn lint_image_without_alt() {
    let issues = lint(None).rule_image_alt("doc.md", &char_lines("![](img.png)\n![alt](img.png)\n"));
    assert_eq!(issues.len(), 1);
    assert_eq!(issues[0].code, "L010");
    assert_eq!(issues[0].message, "Imagen sin alt text");
    assert_eq!(issues[0].line, Some(1));
}

#[test]
fn lint_double_separator() {
    let content = "| h |\n|---|\n| 1 |\n|---|\n\n| g |\n|---|\n";
    let issues = lint(None).rule_table_double_separator("doc.md", &char_lines(content));
    assert_eq!(issues.len(), 1);
    assert_eq!(issues[0].code, "L011");
    assert_eq!(issues[0].line, Some(4));
    assert_eq!(issues[0].message, "Separador duplicado en tabla (primer sep línea 2)");
    assert_eq!(issues[0].severity, LintSeverity::Error);
    assert!(issues[0].fixable);
}

#[test]
fn lint_unescaped_pipe() {
    let content = "| [[a|b]] | x |\n| [[a\\|b]] | y |\n[[c|d]]\n";
    let issues = lint(None).rule_unescaped_pipe_in_table("doc.md", &char_lines(content));
    assert_eq!(issues.len(), 1);
    assert_eq!(issues[0].code, "L012");
    assert_eq!(issues[0].message, "Wikilink con pipe sin escapar: [[a|b]]");
    assert_eq!(issues[0].line, Some(1));
}

#[test]
fn lint_nietos_mismatch() {
    let content = "| Hijo | Nietos |\n|---|---|\n| [[1.1 nombre]] | 5 |\n| [[3 y]] | 0 |\nfin\n";
    let names = vec!["1.1.1 a.md".to_string(), "1.1.2 b.md".to_string(), "1.1 nombre.md".to_string(), "notas.txt".to_string()];
    let cmd = lint(None);
    assert_eq!(cmd.count_descendants(&names, "1.1"), 2);
    let issues = cmd.rule_nietos_mismatch("doc.md", &char_lines(content), &names);
    assert_eq!(issues.len(), 1);
    assert_eq!(issues[0].code, "L013");
    assert_eq!(issues[0].message, "Nietos=5 incorrecto (real=2) para 1.1 nombre");
    assert_eq!(issues[0].line, Some(3));
}

#[test]
fn lint_absolute_wikilink() {
    let link = "[[Proyecto OnlyCarNLD/Datos/1.1. identidad del proyecto completo]]";
    let issues = lint(None).rule_wikilink_absolute_path("doc.md", &char_lines(&format!("ver {}\n", link)));
    assert_eq!(issues.len(), 1);
    assert_eq!(issues[0].code, "L014");
    assert_eq!(issues[0].message, format!("Wikilink con path absoluto: {}", &link[..50]));
    assert_eq!(issues[0].severity, LintSeverity::Info);
}

#[test]
fn lint_file_all_and_filtered() {
    let content = "---\nid: 1\ntitle: t\n---\n![](x.png)\n";
    let all = lint(None).lint_file("doc.md", content, &vec![]);
    assert!(all.iter().any(|i| i.code == "L010"));
    let only = lint(Some("L010")).lint_file("doc.md", content, &vec![]);
    assert_eq!(only.len(), 1);
    assert_eq!(only[0].code, "L010");
}

#[test]
fn test_hash_cache_basic() {
    let mut cache = HashCache::new();
    let hash1 = cache.get_or_compute("cached.md", 1, "Cached content");
    assert_eq!(cache.len(), 1);
    let hash2 = cache.get_or_compute("cached.md", 1, "other text, not read again");
    assert!(hash1 == hash2);
    assert!(hash1 == compute_content_hash("Cached content"));
}

#[test]
fn test_hash_cache_invalidation() {
    let mut cache = HashCache::new();
    let _hash1 = cache.get_or_compute("invalidate.md", 1, "Original");
    assert_eq!(cache.len(), 1);
    cache.invalidate("invalidate.md");
    assert_eq!(cache.len(), 0);
    assert!(cache.is_empty());
}

#[test]
fn test_hash_cache_stale_detection() {
    let mut cache = HashCache::new();
    let hash1 = cache.get_or_compute("stale.md", 1, "Original content");
    assert!(!cache.has_changed("stale.md", 1));
    assert!(cache.has_changed("stale.md", 2));
    let hash2 = cache.get_or_compute("stale.md", 2, "Modified content");
    assert!(hash1 != hash2);
    assert_eq!(cache.len(), 1);
}

#[test]
fn hash_cache_preload_and_cleanup() {
    let mut cache = HashCache::new();
    let items = vec![
        ("a.md".to_string(), Some(1u64), Some("A".to_string())),
        ("b.md".to_string(), None, Some("B".to_string())),
        ("c.md".to_string(), Some(3u64), None),
        ("d.md".to_string(), Some(4u64), Some("D".to_string())),
    ];
    assert_eq!(cache.preload(&items), 2);
    assert_eq!(cache.len(), 2);
    assert!(cache.lookup("a.md", 1).is_some());
    assert!(cache.lookup("a.md", 2).is_none());
    let removed = cache.cleanup_stale(&vec!["d.md".to_string()]);
    assert_eq!(removed, 1);
    assert_eq!(cache.len(), 1);
    assert!(cache.lookup("d.md", 4).is_some());
    cache.clear();
    assert_eq!(cache.len(), 0);
}

#[test]
fn multi_file_hash_value() {
    let h = compute_multi_file_hash(&vec!["a".to_string(), "b".to_string()]);
    assert_eq!(h.full(), "8fb20ef63ced4145fc2e983ffe597d1dcff39154c3bf21f0fa9dde6a0c50fdc9");
}

fn batch(module: Option<&str>, value: Option<&str>) -> BatchCommand {
    BatchCommand {
        path: None,
        field: None,
        value: value.map(|v| v.to_string()),
        module: module.map(|m| m.to_string()),
        dry_run: false,
        file: None,
        jobs: 1,
        commands: vec![],
        add_field: None,
        remove_field: None,
        filter: None,
        progress: false,
    }
}

#[test]
fn batch_frontmatter_update() {
    let content = "---\nstatus: active\nmodule: ventas\n---\n";
    let cmd = batch(Some("vent"), Some("reviewed"));
    assert_eq!(cmd.frontmatter_update(content), Some("---\nstatus: \"reviewed\"\nmodule: ventas\n---\n".to_string()));
    assert_eq!(cmd.update_operation_name(), "update-status");
    assert_eq!(cmd.update_message(), "status=reviewed");
    assert_eq!(batch(Some("compras"), None).frontmatter_update(content), None);
    assert_eq!(batch(None, None).frontmatter_update("sin campos"), None);
    assert_eq!(
        batch(None, None).frontmatter_update("status: active\n"),
        Some("status: \"draft\"\n".to_string())
    );
}

fn module_cmd() -> ModuleCommand {
    ModuleCommand { module_id: None, path: None, list: false, json: false, create: None, move_doc: None, to: None }
}

#[test]
fn module_create_and_move() {
    let readme = ModuleCommand::module_readme("ventas", "2026-01-02");
    assert!(readme.starts_with("---\ntitle: \"Módulo ventas\"\ndocument_id: \"ventas.0\""));
    assert!(readme.contains("created: \"2026-01-02\"\nlast_updated: \"2026-01-02\"\n---\n\n# ventas\n"));
    assert!(readme.ends_with("| - | - | - |\n"));
    let (dir, text, result) = module_cmd().create_module("ventas");
    assert_eq!(dir, "docs/modulos/ventas");
    assert!(text.starts_with("---\ntitle: \"Módulo ventas\""));
    assert_eq!(result.modules.len(), 1);
    assert_eq!(result.modules[0].document_count, 1);

    let docs = vec![
        ("a.md".to_string(), "---\ndocument_id: \"1.1\"\nmodule: \"ventas\"\n---\n".to_string()),
        ("b.md".to_string(), "---\ndocument_id: \"2.1\"\nmodule: ventas\n---\n".to_string()),
    ];
    let (i, moved, res) = module_cmd().move_document(&docs, "2.1", "compras").unwrap();
    assert_eq!(i, 1);
    assert_eq!(moved, "---\ndocument_id: \"2.1\"\nmodule: compras\n---\n");
    assert_eq!(res.modules[0].id, "compras");
    let (j, moved_quoted, _) = module_cmd().move_document(&docs, "1.1", "compras").unwrap();
    assert_eq!(j, 0);
    assert_eq!(moved_quoted, "---\ndocument_id: \"1.1\"\nmodule: \"compras\"\n---\n");
    assert!(module_cmd().move_document(&docs, "9.9", "compras").is_none());
}

#[test]
fn fix_summary_text() {
    assert_eq!(fix_summary(&vec![]), "");
    let s = fix_summary(&vec![
        (AnomalyType::DateDrift, vec!["a.md".to_string(), "b.md".to_string()]),
        (AnomalyType::InvalidType, vec!["c.md".to_string()]),
    ]);
    assert!(s.contains("│  🟡 2 errores: DateDrift\n│     └─ FIX: sync --dates-only --force\n│\n│  ⚪ 1 errores: InvalidType\n│\n╰"));
    assert!(s.ends_with("💡 Ejecuta los comandos sugeridos para corregir las anomalías.\n"));
}

#[test]
fn lint_rule_explanation() {
    let text = rule_explanation("L006").unwrap();
    assert!(text.starts_with("\n📘 REGLA L006: Code Block Language\n"));
    assert!(text.contains("📊 AUTO-FIX: No disponible"));
    let err = rule_explanation("L999").unwrap_err();
    assert_eq!(err, "❌ Regla 'L999' no encontrada.\n   Reglas válidas: L001-L014\n");
}

#[test]
fn gen_validate_generated() {
    let cmd = GenCommand {
        doc_type: "doc".to_string(),
        doc_id: "1.1".to_string(),
        output: None,
        template: None,
        title: None,
        parent_id: None,
        module: None,
        var: None,
        validate: true,
    };
    assert!(cmd.validate_generated("---\ntitle: x\ndocument_id: 1\n---\n").is_empty());
    assert_eq!(
        cmd.validate_generated("sin nada"),
        vec![
            "⚠️ Advertencia: documento sin frontmatter válido".to_string(),
            "⚠️ Campo faltante: title:".to_string(),
            "⚠️ Campo faltante: document_id:".to_string(),
        ]
    );
}

#[test]
fn compress_html_page() {
    let page = CompressCommand::html_page("2026-01-01 10:00", 2, "a\nb", "c\nd");
    assert!(page.starts_with("<!DOCTYPE html>"));
    assert!(page.contains("<p class=\"stats\">Generado: 2026-01-01 10:00 | 2 documentos</p>"));
    assert!(page.contains("a<br>b"));
    assert!(page.contains("c<br>d"));
    assert!(page.contains(":root { --primary"));
    assert!(page.ends_with("</html>"));
}

#[test]
fn coverage_run_counts_by_range() {
    let cmd = oc_diagdoc::commands::coverage::CoverageCommand { path: None, module: None, json: false };
    let docs = vec![String::new(), "a b c".to_string(), "uno dos".to_string()];
    let r = cmd.run(&docs);
    assert_eq!(r.total_documents, 3);
    assert_eq!(r.total_words, 5);
    assert_eq!(r.avg_words, 1);
    assert_eq!(r.ranges[0].count, 1);
    assert_eq!(r.ranges[1].count, 2);
    assert_eq!(r.ranges[2].count, 0);
}
