use oc_diagdoc::commands::verify::VerifyCommand;
use oc_diagdoc::commands::watch::WatchConfig;
use oc_diagdoc::schema::{validate_frontmatter, FieldSpec, FieldType, SchemaDefinition};
use oc_diagdoc::yaml::YamlFrontmatter;
use oc_diagdoc::commands::deps::DepsCommand;
use oc_diagdoc::commands::dashboard::Issue;
use oc_diagdoc::commands::export::ExportFormat;
use oc_diagdoc::commands::lint::{LintCommand, LintSeverity};
use oc_diagdoc::commands::sync::SyncCommand;
use oc_diagdoc::commands::verify::VerificationPhase;
use oc_diagdoc::config::OcConfig;
use oc_diagdoc::graph::DependencyGraph;
use oc_diagdoc::lint_docs::get_all_rules;
use oc_diagdoc::registry::{CommandMeta, CommandRegistry, RegistryBuilder};
use oc_diagdoc::types::DocumentId;

fn id(s: &str) -> DocumentId {
    DocumentId::parse(s).unwrap()
}

fn lint() -> LintCommand {
    LintCommand {
        path: None,
        fix: false,
        dry_run: false,
        errors_only: false,
        json: false,
        rule: None,
        summary: false,
        show_fixes: false,
        explain: None,
    }
}

#[test]
fn line_length_limit_is_300() {
    let long: Vec<Vec<char>> = vec!["x".repeat(400).chars().collect()];
    let issues = lint().rule_line_length("doc.md", &long);
    assert_eq!(issues.len(), 1);
    assert_eq!(issues[0].code, "L005");
    assert_eq!(issues[0].line, Some(1));
    assert_eq!(issues[0].severity, LintSeverity::Warning);
    let ok: Vec<Vec<char>> = vec!["x".repeat(300).chars().collect()];
    assert!(lint().rule_line_length("doc.md", &ok).is_empty());
}

#[test]
fn merge_gives_other_priority() {
    let mut base = OcConfig::default();
    base.threads = 4;
    let mut other = OcConfig::default();
    other.cache_enabled = false;
    other.cache_dir = "/tmp/cache".to_string();
    other.validation.strict_schema = true;
    other.coverage.min_words = 500;
    base.merge(other);
    assert!(!base.cache_enabled);
    assert_eq!(base.cache_dir, "/tmp/cache");
    assert!(base.validation.strict_schema);
    assert_eq!(base.coverage.min_words, 500);
    assert_eq!(base.threads, 4);
}

#[test]
fn timestamp_has_iso_shape() {
    let ts: Vec<char> = SyncCommand::current_timestamp().chars().collect();
    assert_eq!(ts.len(), 19);
    for (i, c) in ts.iter().enumerate() {
        match i {
            4 | 7 => assert_eq!(*c, '-'),
            10 => assert_eq!(*c, 'T'),
            13 | 16 => assert_eq!(*c, ':'),
            _ => assert!(c.is_ascii_digit()),
        }
    }
}

#[test]
fn descendants_are_breadth_first() {
    let mut graph = DependencyGraph::new();
    graph.add_node_with_parent(id("1.1"), Some(id("1")));
    graph.add_node_with_parent(id("1.1.1"), Some(id("1.1")));
    graph.add_node_with_parent(id("1.1.2"), Some(id("1.1")));
    let d: Vec<String> = graph.get_descendants(&id("1")).iter().map(|x| x.to_text()).collect();
    assert_eq!(d, vec!["1.1".to_string(), "1.1.1".to_string(), "1.1.2".to_string()]);
}

#[test]
fn edge_count_after_links() {
    let mut graph = DependencyGraph::new();
    graph.add_link(id("1"), id("2"));
    graph.add_link(id("1"), id("2"));
    graph.add_link(id("2"), id("1"));
    assert_eq!(graph.edge_count(), 2);
}

#[test]
fn builder_registry_has_no_plugins() {
    let reg = RegistryBuilder::new().with_builtins().build();
    assert_eq!(reg.command_count(), 11);
    assert_eq!(reg.plugin_count(), 0);
    assert!(reg.get_plugin("x").is_none());
}

#[test]
fn register_twice_is_register_once() {
    let mut reg = CommandRegistry::new();
    reg.register(CommandMeta::new("cmd", "Desc", "cat").with_alias("c"));
    reg.register(CommandMeta::new("cmd", "Desc", "cat").with_alias("c"));
    assert_eq!(reg.command_count(), 1);
    assert_eq!(reg.get("c").unwrap().name, "cmd");
}

#[test]
fn phase_issues_have_no_file() {
    let mut p = VerificationPhase::new(3, "unique_ids", "d");
    p.add_error("e1");
    p.add_warning("w1");
    p.add_warning("w2");
    let v = Issue::from_phase(&p);
    assert_eq!(v.len(), 3);
    assert_eq!(v[0].id, "E03");
    assert_eq!(v[1].id, "W03");
    assert!(v[1].fixable);
    assert_eq!(v[2].message, "w2");
    assert!(v.iter().all(|i| i.phase == 3 && i.file.is_none()));
}

#[test]
fn rule_texts_match_codes() {
    let rules = get_all_rules();
    assert_eq!(rules[4].description, "Las líneas no deben exceder 300 caracteres.");
    assert_eq!(rules[0].suggestion, "Agregar frontmatter YAML con campos id, title, parent, type, status.");
}

#[test]
fn lint_file_checked_refuses_uncuttable_link() {
    let names: Vec<String> = vec![];
    let plain = "---\nid: 1\ntitle: t\n---\n\n# T\n";
    assert!(lint().lint_file_checked("a.md", plain, &names).is_some());
}

#[test]
fn update_present_field_twice_is_once() {
    let doc = "---\nid: 1\nstatus: draft\n---\n\nCuerpo\n";
    let once = oc_diagdoc::yaml::update_field(doc, "status", "final").ok().unwrap();
    let twice = oc_diagdoc::yaml::update_field(&once, "status", "final").ok().unwrap();
    assert_eq!(once, twice);
    assert_eq!(once, "---\nid: 1\nstatus: final\n---\n\nCuerpo\n");
}

#[test]
fn second_fix_changes_nothing() {
    let once = lint().fix_file("a  \n\n\nb\t\n\n").unwrap();
    assert_eq!(once, "a\n\n\nb\n");
    assert!(lint().fix_file(&once).is_none());
    assert_eq!(lint().fix_file(""), Some(String::new()));
}

#[test]
fn update_absent_field_twice_is_once() {
    let doc = "---\nid: 1\n---\n\nCuerpo\n";
    let once = oc_diagdoc::yaml::update_field(doc, "status", "draft").ok().unwrap();
    let twice = oc_diagdoc::yaml::update_field(&once, "status", "draft").ok().unwrap();
    assert_eq!(once, twice);
}

#[test]
fn format_names_ignore_ascii_case() {
    assert_eq!(ExportFormat::from_str("JSON"), Some(ExportFormat::Json));
    assert_eq!(ExportFormat::from_str("Markdown"), Some(ExportFormat::Markdown));
    assert_eq!(oc_diagdoc::commands::verify::parse_phase("YAML"), oc_diagdoc::commands::verify::parse_phase("yaml"));
}

#[test]
fn update_field_twice_colon_field_added_once() {
    let doc = "---\n---\nbody";
    let once = oc_diagdoc::yaml::update_field(doc, "x:y", "v").ok().unwrap();
    assert_eq!(once, "---\nx:y: v\n---\nbody");
    let twice = oc_diagdoc::yaml::update_field(&once, "x:y", "v").ok().unwrap();
    assert_eq!(twice, once);
}

#[test]
fn update_field_twice_colon_field_found_elsewhere() {
    let doc = "---a:---";
    let once = oc_diagdoc::yaml::update_field(doc, "a:a", "v").ok().unwrap();
    let twice = oc_diagdoc::yaml::update_field(&once, "a:a", "v").ok().unwrap();
    assert_ne!(twice, once);
}

#[test]
fn fix_needed_exactly_when_shape_is_off() {
    assert_eq!(lint().fix_file("a\nb\n"), None);
    assert_eq!(lint().fix_file("\n"), None);
    assert!(lint().fix_file("a \nb\n").is_some());
    assert!(lint().fix_file("a\nb\n\n").is_some());
    assert!(lint().fix_file("a\nb").is_some());
    assert!(lint().fix_file("a\n\t\n").is_some());
}

#[test]
fn deps_cycle_found_through_chain() {
    let cmd = DepsCommand {
        path: None,
        root: None,
        detect_cycles: true,
        mermaid: false,
        depth: None,
        direction: "both".to_string(),
        impact: None,
        orphans: false,
        graph: false,
        format: "table".to_string(),
        output: None,
    };
    let files = vec![
        ("x".to_string(), "---\nparent_id: z\n---\n".to_string()),
        ("y".to_string(), "---\nparent_id: x\n---\n".to_string()),
        ("z".to_string(), "---\nparent_id: y\n---\n".to_string()),
    ];
    let r = cmd.run(&files);
    assert!(r.has_cycles());
    let files = vec![
        ("x".to_string(), "---\nparent_id: y\n---\n".to_string()),
        ("y".to_string(), "---\nparent_id: z\n---\n".to_string()),
    ];
    let r = cmd.run(&files);
    assert!(!r.has_cycles());
}


#[test]
fn pick_date_first_placed_try() {
    assert_eq!(VerifyCommand::pick_date(&vec![(None, None), (Some(5), Some(-1)), (Some(9), Some(7))]), Some(u64::MAX));
    assert_eq!(VerifyCommand::pick_date(&vec![(Some(5), None), (None, None), (Some(9), Some(7))]), Some(7));
    assert_eq!(VerifyCommand::pick_date(&vec![(Some(5), None), (None, None), (None, None)]), None);
    assert_eq!(VerifyCommand::pick_date(&vec![]), None);
}

#[test]
fn parse_date_within_a_day_of_calendar_time() {
    let v = VerifyCommand::parse_date_to_secs(" \"2024-01-15\" ").unwrap() as i64;
    assert!((v - 1705276800).abs() < 86400);
    let v = VerifyCommand::parse_date_to_secs("2024-01-15 10:30").unwrap() as i64;
    assert!((v - 1705314600).abs() < 86400);
    assert!(VerifyCommand::parse_date_to_secs("0000-06-15").is_some());
    assert!(VerifyCommand::parse_date_to_secs("15/01/2024").is_none());
}

#[test]
fn debounce_duration_is_debounce_ms() {
    let mut c = WatchConfig::default_config();
    assert_eq!(c.debounce_duration(), std::time::Duration::from_millis(500));
    c.debounce_ms = 1234;
    assert_eq!(c.debounce_duration().as_millis(), 1234);
}

#[test]
fn validation_messages() {
    let schema = SchemaDefinition::new("t")
        .add_field(FieldSpec::required("id", FieldType::String))
        .add_field(FieldSpec::optional("priority", FieldType::Integer))
        .add_field(FieldSpec::required("status", FieldType::Enum(vec!["a".to_string(), "b".to_string()])));
    let fm = YamlFrontmatter {
        id: String::new(),
        title: "T".to_string(),
        status: "c".to_string(),
        priority: Some("x".to_string()),
        ..Default::default()
    };
    let r = validate_frontmatter(&fm, &schema);
    let msgs: Vec<String> = r.violations.iter().map(|v| v.message.clone()).collect();
    assert_eq!(
        msgs,
        vec![
            "Campo requerido 'id' no encontrado".to_string(),
            "Campo 'priority' tiene tipo incorrecto. Esperado: Integer".to_string(),
            "Valor 'c' no permitido para 'status'. Valores válidos: [\"a\", \"b\"]".to_string(),
        ]
    );
}
