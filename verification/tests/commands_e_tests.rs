use oc_diagdoc::commands::audit::{AuditCategory, AuditCommand};
use oc_diagdoc::commands::links::{Link, LinkStatus, LinksResult};
use oc_diagdoc::commands::stats::{ProjectStats, StatsCommand};
use oc_diagdoc::commands::sync::{SyncChange, SyncCommand, SyncResult};
use oc_diagdoc::commands::tree::{TreeCommand, TreeDisplayNode};
use oc_diagdoc::hash::short_content_hash;
use oc_diagdoc::lint_docs::{get_all_rules, get_rule_doc};

fn stats_cmd() -> StatsCommand {
    StatsCommand {
        path: None,
        by_module: false,
        json: false,
        sort: "id".to_string(),
        by_status: false,
        by_type: false,
        recent: None,
        size: false,
        heatmap: false,
        cache: false,
    }
}

#[test]
fn test_project_stats_new() {
    let stats = ProjectStats::new();
    assert_eq!(stats.total_documents, 0);
}

#[test]
fn stats_test_avg_words() {
    let mut stats = ProjectStats::new();
    stats.total_documents = 10;
    stats.total_words = 1000;
    assert_eq!(stats.avg_words_per_doc(), 100);
}

#[test]
fn stats_avg_words_without_documents() {
    let stats = ProjectStats::default();
    assert_eq!(stats.avg_words_per_doc(), 0);
}

#[test]
fn stats_counts_file() {
    assert!(StatsCommand::counts_file("1.1 vision.md"));
    assert!(!StatsCommand::counts_file("TRAP_x.md"));
    assert!(!StatsCommand::counts_file("AUTOTEST_x.md"));
    assert!(!StatsCommand::counts_file("TEST_x.md"));
}

#[test]
fn stats_run_totals() {
    let docs = vec![
        ("a".to_string(), Some("---\nid: 1.2\n---\nhello world [[b]] [[zz]]\n```\n[[b]]\n```\n".to_string())),
        ("b".to_string(), Some("---\nid: 1\n---\nx".to_string())),
        ("c".to_string(), None),
    ];
    let (stats, modules) = stats_cmd().run(&docs);
    assert_eq!(stats.total_documents, 3);
    assert_eq!(stats.healthy_documents, 2);
    assert_eq!(stats.total_words, 8);
    assert_eq!(stats.total_links, 2);
    assert_eq!(stats.broken_links, 1);
    assert_eq!(stats.max_depth, 2);
    assert_eq!(stats.modules_count, 1);
    assert_eq!(modules.len(), 1);
    assert_eq!(modules[0].id, "1");
    assert_eq!(modules[0].name, "Módulo 1");
    assert_eq!(modules[0].document_count, 2);
    assert_eq!(modules[0].word_count, 8);
}

#[test]
fn stats_modules_by_number() {
    let docs = vec![
        ("x".to_string(), Some("---\nid: 10\n---\n".to_string())),
        ("y".to_string(), Some("---\nid: 2\n---\n".to_string())),
        ("z".to_string(), Some("---\nid: 1.5\n---\n".to_string())),
    ];
    let (_, modules) = stats_cmd().run(&docs);
    let ids: Vec<&str> = modules.iter().map(|m| m.id.as_str()).collect();
    assert_eq!(ids, vec!["1", "2", "10"]);
}

fn sync_cmd() -> SyncCommand {
    SyncCommand {
        path: None,
        dates_only: true,
        hashes_only: true,
        dry_run: false,
        force: false,
        breadcrumbs: false,
        children: true,
        fix_descendants: false,
        fix_total: false,
        tolerance: 5,
        fix_all: false,
        module: None,
    }
}

#[test]
fn test_sync_result_new() {
    let result = SyncResult::new();
    assert!(!result.has_changes());
}

#[test]
fn test_add_change() {
    let mut result = SyncResult::new();
    result.add_change(SyncChange {
        path: "test.md".to_string(),
        field: "last_updated".to_string(),
        old_value: "2024-01-01".to_string(),
        new_value: "2024-01-30".to_string(),
    });
    assert!(result.has_changes());
    assert_eq!(result.files_modified, 1);
}

#[test]
fn test_current_timestamp() {
    let ts = SyncCommand::current_timestamp();
    assert!(ts.contains("-"));
    assert!(ts.contains("T"));
}

#[test]
fn test_multiple_changes_same_file() {
    let mut result = SyncResult::new();
    result.add_change(SyncChange {
        path: "test.md".to_string(),
        field: "a".to_string(),
        old_value: "1".to_string(),
        new_value: "2".to_string(),
    });
    result.add_change(SyncChange {
        path: "test.md".to_string(),
        field: "b".to_string(),
        old_value: "3".to_string(),
        new_value: "4".to_string(),
    });
    assert_eq!(result.changes.len(), 2);
    assert_eq!(result.files_modified, 1);
}

#[test]
fn sync_children_count() {
    let mut result = SyncResult::new();
    let w = sync_cmd().sync_file_at("b.md", "---\nchildren_count: 3\n---\n", 5, "2024-01-01 00:00:00", &mut result);
    assert_eq!(w, Some("---\nchildren_count: 5\n---\n".to_string()));
    assert_eq!(result.changes.len(), 1);
    assert_eq!(result.changes[0].field, "children_count");
    assert_eq!(result.changes[0].old_value, "3");
    assert_eq!(result.changes[0].new_value, "5");
    let mut dry = sync_cmd();
    dry.dry_run = true;
    let mut r2 = SyncResult::new();
    assert_eq!(dry.sync_file_at("b.md", "---\nchildren_count: 3\n---\n", 5, "now", &mut r2), None);
    assert_eq!(r2.changes.len(), 1);
}

#[test]
fn sync_initializes_hash() {
    let mut cmd = sync_cmd();
    cmd.hashes_only = false;
    cmd.children = false;
    let mut result = SyncResult::new();
    let content = "---\ntitle: x\n---\nbody";
    let w = cmd.sync_file_at("a.md", content, 0, "2024-01-01 00:00:00", &mut result).unwrap();
    let h = short_content_hash(content);
    assert_eq!(h.len(), 16);
    assert_eq!(w, format!("---\ncontent_hash: \"{}\"\ntitle: x\n---\nbody", h));
    assert_eq!(result.hashes_initialized, 1);
    assert!(!result.has_changes());
}

#[test]
fn sync_hash_ignores_volatile_lines() {
    let a = short_content_hash("---\nlast_updated: \"2020\"\ntitle: x\n---\n");
    let b = short_content_hash("---\nlast_updated: \"2024\"\ntitle: x\n---\n");
    let c = short_content_hash("---\ntitle: y\n---\n");
    assert_eq!(a, b);
    assert_ne!(a, c);
}

#[test]
fn sync_run_children() {
    let files = vec![
        ("a.md".to_string(), "a".to_string(), Some("parent_id: b\n".to_string())),
        ("b.md".to_string(), "b".to_string(), Some("---\nchildren_count: 0\n---\n".to_string())),
        ("c.md".to_string(), "c".to_string(), None),
    ];
    let (result, writes) = sync_cmd().run(&files);
    assert_eq!(result.files_scanned, 3);
    assert_eq!(result.files_modified, 1);
    assert_eq!(writes, vec![("b.md".to_string(), "---\nchildren_count: 1\n---\n".to_string())]);
}

#[test]
fn test_tree_node_prefix() {
    let mut node = TreeDisplayNode::new("1.1", "Test", 2);
    node.is_last = false;
    node.ancestors_are_last = vec![false, false];
    let prefix = node.prefix();
    assert!(prefix.contains("├──"));
    assert_eq!(prefix, "│   ├── ");
}

#[test]
fn test_tree_node_render() {
    let node = TreeDisplayNode::new("1.1", "Test Doc", 0);
    let rendered = node.render();
    assert!(rendered.contains("Test Doc"));
    assert!(rendered.contains("1.1"));
    assert_eq!(rendered, "📄 Test Doc (1.1)");
}

#[test]
fn test_tree_result_render() {
    let result = TreeCommand::build_sample_tree();
    let output = result.render();
    assert!(output.contains("Contextualizador"));
    assert!(output.contains("5 documentos"));
}

#[test]
fn test_sample_tree() {
    let tree = TreeCommand::build_sample_tree();
    assert_eq!(tree.total_nodes, 5);
    assert_eq!(tree.max_depth, 2);
}

fn tree_cmd() -> TreeCommand {
    TreeCommand {
        path: None,
        module: None,
        depth: None,
        errors_only: false,
        words: false,
        color: false,
        stats: false,
        doc_type: None,
        orphans_only: false,
        root: None,
        show_status: false,
        format: "ascii".to_string(),
        output: None,
        show_type: false,
        show_children: false,
    }
}

#[test]
fn tree_run_builds_hierarchy() {
    let files = vec![
        ("1".to_string(), Some("title: Uno\n".to_string())),
        ("1.1".to_string(), Some("title: Sub\nparent_id: 1\n".to_string())),
        ("2".to_string(), Some("parent_id: 9\n".to_string())),
    ];
    let r = tree_cmd().run(&files);
    let ids: Vec<&str> = r.nodes.iter().map(|n| n.id.as_str()).collect();
    assert_eq!(ids, vec!["1", "1.1", "2"]);
    assert_eq!(r.total_nodes, 3);
    assert_eq!(r.max_depth, 1);
    assert_eq!(r.orphans_count, 1);
    assert_eq!(r.total_words, 8);
    assert_eq!(r.nodes[0].doc_type, "module_root");
    assert_eq!(r.nodes[0].status_emoji, "📁");
    assert_eq!(r.nodes[1].render(), "└── 📄 Sub (1.1)");
    assert!(r.nodes[2].is_orphan);
    assert_eq!(r.nodes[2].status_emoji, "⚠️");
    assert_eq!(r.nodes[2].title, "2");
    let mermaid = r.render_mermaid();
    assert!(mermaid.contains("    1_1[\"Sub\"]\n"));
    assert!(mermaid.contains("    1 --> 1_1\n"));
    let json = r.render_json();
    assert!(json.starts_with("{\n  \"total_nodes\": 3,\n"));
    assert!(json.contains("\"parent_id\": \"1\""));
}

#[test]
fn tree_depth_limit_and_module_filter() {
    let files = vec![
        ("1".to_string(), Some("title: Uno\n".to_string())),
        ("1.1".to_string(), Some("parent_id: 1\n".to_string())),
        ("2".to_string(), Some("title: Dos\n".to_string())),
    ];
    let mut cmd = tree_cmd();
    cmd.depth = Some(0);
    let r = cmd.run(&files);
    assert_eq!(r.total_nodes, 2);
    let mut cmd2 = tree_cmd();
    cmd2.module = Some("2".to_string());
    let r2 = cmd2.run(&files);
    assert_eq!(r2.total_nodes, 1);
    assert_eq!(r2.nodes[0].title, "Dos");
}

#[test]
fn test_get_rule_doc() {
    let doc = get_rule_doc("L006");
    assert!(doc.is_some());
    assert_eq!(doc.unwrap().name, "Code Block Language");
}

#[test]
fn lint_docs_table() {
    let rules = get_all_rules();
    assert_eq!(rules.len(), 14);
    assert_eq!(rules[10].code, "L011");
    assert!(rules[10].auto_fixable);
    assert!(get_rule_doc("L099").is_none());
}

#[test]
fn audit_run_findings() {
    let mut links = LinksResult::new();
    links.add_link(Link { source: "a.md".to_string(), target: "x".to_string(), line: 1, status: LinkStatus::Broken, normalized: None });
    let docs: Vec<(String, Option<String>)> = (0..11).map(|i| (format!("d{}.md", i), Some("short".to_string()))).collect();
    let cmd = AuditCommand { path: None, json: false, recommendations: false, export: None, verbose: false };
    let r = cmd.run(&Some(links), &None, &docs);
    assert_eq!(r.total_files, 11);
    assert_eq!(r.findings.len(), 2);
    assert!(matches!(r.findings[0].category, AuditCategory::Links));
    assert_eq!(r.findings[0].title, "1 enlaces rotos detectados");
    assert_eq!(r.findings[0].affected_files, vec!["a.md".to_string()]);
    assert_eq!(r.findings[1].title, "11 documentos con bajo contenido (<100 palabras)");
    assert_eq!(r.findings[1].affected_files.len(), 10);
    assert_eq!(r.score, 86);
}
