use oc_diagdoc::cli::{CliApp, CliResult, ExecutionContext};
use oc_diagdoc::config::{CoverageConfig, OcConfig};
use oc_diagdoc::docs::{ChangelogEntry, ChangelogGenerator, DocSection, ReadmeGenerator};
use oc_diagdoc::fix_router::{AnomalyType, FixRouter};
use oc_diagdoc::hash::{compute_body_hash, compute_hash_excluding_volatile, extract_body_content};
use oc_diagdoc::pipeline::{Pipeline, PipelineContext, PipelineStage, WordCountStage};
use oc_diagdoc::registry::{CommandMeta, CommandRegistry, RegistryBuilder};
use oc_diagdoc::schema::{validate_frontmatter, SchemaDefinition, ViolationType};
use oc_diagdoc::yaml::YamlFrontmatter;

#[test]
fn test_cli_app_default() {
    let app = CliApp::default();
    assert!(!app.verbose);
    assert!(app.is_text());
}

#[test]
fn test_cli_app_formats() {
    let mut app = CliApp::default();
    app.format = "json".to_string();
    assert!(app.is_json());
}

#[test]
fn test_cli_result_ok() {
    let result = CliResult::ok();
    assert!(result.success);
    assert_eq!(result.exit_code, 0);
}

#[test]
fn test_cli_result_error() {
    let result = CliResult::error(1, "Failed");
    assert!(!result.success);
    assert_eq!(result.exit_code, 1);
}

#[test]
fn test_execution_context() {
    let ctx = ExecutionContext::new("verify");
    assert_eq!(ctx.command, "verify");
}

#[test]
fn test_default_config() {
    let config = OcConfig::default();
    assert_eq!(config.data_dir, "Datos");
    assert!(config.cache_enabled);
    assert!(config.parallel);
}

#[test]
fn test_builder() {
    let config = OcConfig::builder().data_dir("MisDatos").verbose(true).threads(4).build();
    assert_eq!(config.data_dir, "MisDatos");
    assert!(config.verbose);
    assert_eq!(config.threads, 4);
}

#[test]
fn test_coverage_config() {
    let config = CoverageConfig::default();
    assert_eq!(config.min_words, 300);
    assert!(config.detect_placeholders);
}

#[test]
fn test_doc_section_new() {
    let section = DocSection::new("Title", "Content", 2);
    assert_eq!(section.level, 2);
}

#[test]
fn test_doc_section_markdown() {
    let section = DocSection::new("Title", "Content", 2);
    assert!(section.to_markdown().starts_with("## Title"));
}

#[test]
fn test_readme_generator() {
    let gen = ReadmeGenerator::new("test", "1.0");
    let doc = gen.generate();
    assert!(!doc.sections.is_empty());
}

#[test]
fn test_changelog_generator() {
    let mut gen = ChangelogGenerator::new();
    gen.add_entry(ChangelogEntry {
        version: "1.0.0".to_string(),
        date: "2024-01-01".to_string(),
        changes: vec!["Initial release".to_string()],
    });
    let doc = gen.generate();
    assert!(doc.to_markdown().contains("1.0.0"));
}

#[test]
fn test_fix_router_suggest() {
    let router = FixRouter::new();
    let suggestion = router.suggest(&AnomalyType::DateDrift);
    assert!(suggestion.is_some());
    assert!(suggestion.unwrap().command.contains("sync"));
}

#[test]
fn test_generate_command() {
    let router = FixRouter::new();
    let cmd = router.generate_command(&AnomalyType::HashMismatch, "Datos");
    assert!(cmd.is_some());
    assert!(cmd.unwrap().contains("--path Datos"));
}

#[test]
fn test_pipeline_context_new() {
    let ctx = PipelineContext::new("test.md".to_string(), "content".to_string());
    assert!(!ctx.has_errors());
}

#[test]
fn test_pipeline_context_errors() {
    let mut ctx = PipelineContext::new("test.md".to_string(), "content".to_string());
    ctx.add_error("Error 1");
    assert!(ctx.has_errors());
}

#[test]
fn test_pipeline_new() {
    let pipeline = Pipeline::new("test");
    assert_eq!(pipeline.stage_count(), 0);
}

#[test]
fn test_word_count_stage() {
    let stage = WordCountStage;
    let mut ctx = PipelineContext::new("t.md".to_string(), "hello world test".to_string());
    stage.process(&mut ctx);
    assert_eq!(ctx.metadata_get("word_count"), Some(&"3".to_string()));
}

#[test]
fn test_command_meta_new() {
    let meta = CommandMeta::new("test", "Test command", "util");
    assert_eq!(meta.name, "test");
}

#[test]
fn test_command_meta_alias() {
    let meta = CommandMeta::new("test", "Test", "util").with_alias("t");
    assert!(meta.aliases.contains(&"t".to_string()));
}

#[test]
fn test_registry_register() {
    let mut registry = CommandRegistry::new();
    registry.register(CommandMeta::new("cmd", "Desc", "cat"));
    assert!(registry.get("cmd").is_some());
}

#[test]
fn test_registry_builder() {
    let registry = RegistryBuilder::new().with_builtins().build();
    assert!(registry.command_count() > 0);
}

#[test]
fn test_compute_hash_excluding_volatile() {
    let content1 = "---\nlast_updated: 2026-01-01\ncontent_hash: abc123\n---\n# Title\nBody content";
    let content2 = "---\nlast_updated: 2026-12-31\ncontent_hash: xyz789\n---\n# Title\nBody content";
    let hash1 = compute_hash_excluding_volatile(content1);
    let hash2 = compute_hash_excluding_volatile(content2);
    assert_eq!(hash1, hash2);
}

#[test]
fn test_compute_hash_excluding_volatile_detects_real_changes() {
    let content1 = "---\nlast_updated: 2026-01-01\n---\n# Title\nBody content";
    let content2 = "---\nlast_updated: 2026-01-01\n---\n# Title\nBody content CHANGED";
    let hash1 = compute_hash_excluding_volatile(content1);
    let hash2 = compute_hash_excluding_volatile(content2);
    assert_ne!(hash1, hash2);
}

#[test]
fn test_extract_body_content() {
    let content = "---\ntitle: Test\ndate: 2026-01-01\n---\n# Main Title\n\nBody paragraph.";
    let body = extract_body_content(content);
    assert!(body.starts_with("# Main Title"));
    assert!(!body.contains("title: Test"));
}

#[test]
fn test_extract_body_content_no_frontmatter() {
    let content = "# Just a title\n\nNo frontmatter here.";
    let body = extract_body_content(content);
    assert_eq!(body, content);
}

#[test]
fn test_compute_body_hash() {
    let content1 = "---\ntitle: A\n---\n# Same body";
    let content2 = "---\ntitle: B\n---\n# Same body";
    let hash1 = compute_body_hash(content1);
    let hash2 = compute_body_hash(content2);
    assert_eq!(hash1, hash2);
}

#[test]
fn test_valid_frontmatter() {
    let schema = SchemaDefinition::default_oc_schema();
    let fm = YamlFrontmatter {
        id: "1.1".to_string(),
        title: "Test Document".to_string(),
        status: "active".to_string(),
        ..Default::default()
    };
    let result = validate_frontmatter(&fm, &schema);
    assert!(result.is_valid);
}

#[test]
fn test_missing_required() {
    let schema = SchemaDefinition::default_oc_schema();
    let fm = YamlFrontmatter { id: String::new(), title: "Test".to_string(), ..Default::default() };
    let result = validate_frontmatter(&fm, &schema);
    assert!(!result.is_valid);
    assert!(result.violations.iter().any(|v| v.field == "id"));
}

#[test]
fn test_invalid_enum() {
    let schema = SchemaDefinition::default_oc_schema();
    let fm = YamlFrontmatter {
        id: "1".to_string(),
        title: "Test".to_string(),
        status: "invalid_status".to_string(),
        ..Default::default()
    };
    let result = validate_frontmatter(&fm, &schema);
    assert!(!result.is_valid);
    assert!(result.violations.iter().any(|v| v.violation_type == ViolationType::InvalidValue));
}
