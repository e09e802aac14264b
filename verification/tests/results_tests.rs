use oc_diagdoc::commands::coverage::CoverageResult;
use oc_diagdoc::commands::fix::FixCommand;
use oc_diagdoc::commands::gen::GenResult;
use oc_diagdoc::commands::help::HelpCommand;
use oc_diagdoc::commands::links::{Link as CheckedLink, LinkStatus, LinksResult};
use oc_diagdoc::commands::migrate::MigrateResult;
use oc_diagdoc::commands::report::Report;
use oc_diagdoc::commands::search::SearchCommand;
use oc_diagdoc::commands::template::TemplateCommand;
use oc_diagdoc::commands::trace::{TraceReference, TraceResult, TraceType};
use oc_diagdoc::hash::compute_content_hash;
use oc_diagdoc::links::{convert_obsidian_to_md, extract_links, replace_link, validate_links, Link, LinkType};
use oc_diagdoc::lint_docs::get_all_rules;
use oc_diagdoc::schema::{
    suggest_fixes, validate_frontmatter, FieldSpec, FieldType, SchemaDefinition, SchemaViolation, ViolationType,
};
use oc_diagdoc::yaml::YamlFrontmatter;

#[test]
fn test_coverage_result_new() {
    let result = CoverageResult::new();
    assert_eq!(result.ranges.len(), 8);
}

#[test]
fn test_extract_id() {
    assert_eq!(FixCommand::extract_id("1.2.3 nombre"), Some("1.2.3".to_string()));
    assert_eq!(FixCommand::extract_id("1.2.3.4.5 largo"), Some("1.2.3.4.5".to_string()));
    assert_eq!(FixCommand::extract_id("1 simple"), Some("1".to_string()));
    assert_eq!(FixCommand::extract_id("sin_id"), None);
}

#[test]
fn test_count_descendants() {
    let all_ids = vec![
        "1".to_string(),
        "1.1".to_string(),
        "1.2".to_string(),
        "1.2.1".to_string(),
        "1.2.2".to_string(),
        "2".to_string(),
    ];
    assert_eq!(FixCommand::count_descendants("1", &all_ids), 4);
    assert_eq!(FixCommand::count_descendants("1.2", &all_ids), 2);
    assert_eq!(FixCommand::count_descendants("2", &all_ids), 0);
    let ids_with_parent = vec![
        "1.1".to_string(),
        "1.1.0".to_string(),
        "1.1.1".to_string(),
        "1.1.1.2".to_string(),
    ];
    assert_eq!(FixCommand::count_descendants("1.1", &ids_with_parent), 3);
}

#[test]
fn test_add_file() {
    let mut result = GenResult::new("test");
    result.add_file("new.md");
    assert_eq!(result.created_files.len(), 1);
}

#[test]
fn test_help_command_run() {
    let cmd = HelpCommand { topic: Some("verify".to_string()), list: false };
    let result = cmd.run();
    assert!(!result.sections.is_empty());
}

#[test]
fn test_broken_links() {
    let mut result = LinksResult::new();
    result.add_link(CheckedLink {
        source: "a.md".to_string(),
        target: "missing.md".to_string(),
        line: 10,
        status: LinkStatus::Broken,
        normalized: None,
    });
    assert_eq!(result.broken_links().len(), 1);
}

#[test]
fn test_add_migration() {
    let mut result = MigrateResult::new("1.0", "2.0");
    result.add_migration("test_migration");
    assert_eq!(result.migrations_applied.len(), 1);
}

#[test]
fn test_report_new() {
    let report = Report::new("Test Report");
    assert_eq!(report.title, "Test Report");
    assert!(report.sections.is_empty());
}

#[test]
fn test_add_section() {
    let mut report = Report::new("Test");
    report.add_section("Section 1", "Content", 2);
    assert_eq!(report.sections.len(), 1);
}

#[test]
fn test_search_in_content() {
    let cmd = SearchCommand {
        pattern: "hello".to_string(),
        path: None,
        regex: false,
        ignore_case: false,
        yaml: false,
        content_only: false,
        context: 2,
        max_results: None,
    };
    let content = "line1\nhello world\nline3";
    let matches = cmd.search_in_content(content, "test.md");
    assert_eq!(matches.len(), 1);
    assert_eq!(matches[0].line_number, 2);
}

#[test]
fn test_template_command_list() {
    let cmd = TemplateCommand { name: None, list: true, create: false, path: None };
    let result = cmd.run();
    assert!(!result.templates.is_empty());
}

fn link_ref(target: &str, ref_type: TraceType) -> TraceReference {
    TraceReference { source: "1.1".to_string(), target: target.to_string(), ref_type, depth: 1 }
}

#[test]
fn test_add_reference() {
    let mut result = TraceResult::new("1.1");
    result.add_reference(link_ref("1.2", TraceType::Link));
    assert_eq!(result.references.len(), 1);
    assert_eq!(result.depth_reached, 1);
}

#[test]
fn test_unique_documents() {
    let mut result = TraceResult::new("1.1");
    result.add_reference(link_ref("1.2", TraceType::Link));
    assert_eq!(result.unique_documents().len(), 2);
}

#[test]
fn test_by_type() {
    let mut result = TraceResult::new("1.1");
    result.add_reference(link_ref("1.2", TraceType::Link));
    result.add_reference(link_ref("0", TraceType::Parent));
    assert_eq!(result.by_type(TraceType::Link).len(), 1);
    assert_eq!(result.by_type(TraceType::Parent).len(), 1);
}

#[test]
fn test_content_hash() {
    let content = "Hello, World!";
    let hash1 = compute_content_hash(content);
    let hash2 = compute_content_hash(content);
    assert!(hash1 == hash2);
    assert!(!hash1.full().is_empty());
}

#[test]
fn test_extract_obsidian_links() {
    let content = "Ver [[documento]] y [[otro|alias]] para más info.";
    let links = extract_links(content);
    assert_eq!(links.len(), 2);
    assert_eq!(links[0].target, "documento");
    assert_eq!(links[1].target, "otro");
    assert_eq!(links[1].text, Some("alias".to_string()));
}

#[test]
fn test_extract_md_links() {
    let content = "Ver [texto](archivo.md) y [externo](https://example.com).";
    let links = extract_links(content);
    assert_eq!(links.len(), 2);
    assert!(links[0].link_type == LinkType::Markdown);
    assert!(links[1].link_type == LinkType::External);
}

#[test]
fn test_extract_embeds() {
    let content = "Imagen: ![[foto.png]] y ![alt](imagen.jpg).";
    let links = extract_links(content);
    assert_eq!(links.len(), 2);
    assert!(links[0].is_embed());
    assert!(links[1].is_embed());
}

#[test]
fn test_convert_obsidian_to_md() {
    let obsidian = "Ver [[documento]] y [[otro|con alias]].";
    let md = convert_obsidian_to_md(obsidian);
    assert!(md.contains("[documento](documento.md)"));
    assert!(md.contains("[con alias](otro.md)"));
}

#[test]
fn test_replace_link() {
    let content = "Ver [[viejo]] y [texto](viejo.md).";
    let updated = replace_link(content, "viejo", "nuevo");
    assert!(updated.contains("[[nuevo]]"));
}

#[test]
fn test_validate_links() {
    let links = vec![
        Link {
            link_type: LinkType::ObsidianInternal,
            target: "existe.md".to_string(),
            text: None,
            position: 0,
            raw: "[[existe.md]]".to_string(),
        },
        Link {
            link_type: LinkType::ObsidianInternal,
            target: "noexiste.md".to_string(),
            text: None,
            position: 20,
            raw: "[[noexiste.md]]".to_string(),
        },
    ];
    // "/docs/existe.md" is the one known file: the first link resolves to
    // it, the second to a path that is not known.
    let resolved = vec![Some(true), Some(false)];
    let known = vec!["existe.md".to_string()];
    let broken = validate_links(&links, "/docs/source.md", &resolved, &known);
    assert_eq!(broken.len(), 1);
    assert!(broken[0].link.target.contains("noexiste"));
}

#[test]
fn test_get_all_rules() {
    let rules = get_all_rules();
    assert_eq!(rules.len(), 14);
    for code in ["L006", "L011", "L012", "L013", "L014"] {
        assert!(rules.iter().any(|r| r.code == code));
    }
}

#[test]
fn test_schema_creation() {
    let schema = SchemaDefinition::default_oc_schema();
    assert_eq!(schema.required_fields().len(), 2);
    assert!(schema.optional_fields().len() > 5);
}

#[test]
fn test_defaults_applicable() {
    let schema = SchemaDefinition::new("test")
        .add_field(FieldSpec::required("id", FieldType::String))
        .add_field(FieldSpec::optional("status", FieldType::String).with_default("draft"));
    let fm = YamlFrontmatter {
        id: "1".to_string(),
        title: "Test".to_string(),
        status: String::new(),
        ..Default::default()
    };
    let result = validate_frontmatter(&fm, &schema);
    assert!(!result.defaults_applicable.is_empty());
}

#[test]
fn test_suggest_fixes() {
    let violations = vec![SchemaViolation {
        field: "status".to_string(),
        violation_type: ViolationType::InvalidValue,
        message: "Invalid".to_string(),
        suggestion: Some("Use 'draft'".to_string()),
    }];
    let fixes = suggest_fixes(&violations);
    assert_eq!(fixes.len(), 1);
    assert!(fixes[0].contains("draft"));
}
