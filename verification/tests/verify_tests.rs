use oc_diagdoc::commands::verify::{parse_phase, VerificationPhase, VerificationResult, VerifyCommand, VerifyFacts};

fn facts() -> VerifyFacts {
    VerifyFacts { mtimes: vec![], yaml_dates: vec![], links_exist: vec![], embeds_exist: vec![], images_exist: vec![] }
}

fn cmd() -> VerifyCommand {
    VerifyCommand {
        path: None,
        schema_strict: false,
        json: false,
        phase: None,
        quiet: false,
        quick: false,
        progress: false,
        cache: false,
        root_only: false,
        exclude: vec![],
    }
}

fn doc(name: &str, content: &str) -> (Option<String>, Option<String>, Option<String>) {
    let stem = name.trim_end_matches(".md").to_string();
    (Some(name.to_string()), Some(stem), Some(content.to_string()))
}

#[test]
fn test_verification_phase_new() {
    let phase = VerificationPhase::new(1, "test", "Test phase");
    assert!(phase.passed);
    assert!(phase.errors.is_empty());
}

#[test]
fn test_phase_add_error() {
    let mut phase = VerificationPhase::new(1, "test", "Test");
    phase.add_error("something failed");
    assert!(!phase.passed);
    assert_eq!(phase.errors.len(), 1);
}

#[test]
fn test_verification_result() {
    let mut result = VerificationResult::new();
    let mut phase1 = VerificationPhase::new(1, "p1", "d1");
    phase1.add_error("error");
    let phase2 = VerificationPhase::new(2, "p2", "d2");
    result.add_phase(phase1);
    result.add_phase(phase2);
    assert_eq!(result.phases_passed(), 1);
    assert_eq!(result.phases_failed(), 1);
}

#[test]
fn test_exit_code() {
    let result = VerificationResult::new();
    assert_eq!(VerifyCommand::exit_code(&result), 0);
}

#[test]
fn verify_exit_codes() {
    let mut r = VerificationResult::new();
    let mut p = VerificationPhase::new(2, "w", "w");
    p.add_warning("w");
    p.passed = false;
    r.add_phase(p);
    assert_eq!(VerifyCommand::exit_code(&r), 2);
    let mut e = VerificationPhase::new(3, "e", "e");
    e.add_error("e");
    r.add_phase(e);
    assert_eq!(VerifyCommand::exit_code(&r), 1);
    assert_eq!(r.total_errors, 1);
    assert_eq!(r.total_warnings, 1);
}

#[test]
fn verify_parse_phase() {
    assert_eq!(parse_phase("14"), Some(14));
    assert_eq!(parse_phase("22"), None);
    assert_eq!(parse_phase("YAML"), Some(2));
    assert_eq!(parse_phase("links"), Some(9));
    assert_eq!(parse_phase("hash"), Some(21));
    assert_eq!(parse_phase("nada"), None);
}

#[test]
fn verify_is_test_file() {
    assert!(VerifyCommand::is_test_file("HARDTEST_x.md"));
    assert!(VerifyCommand::is_test_file("QUANTUM_TRAP_y.md"));
    assert!(!VerifyCommand::is_test_file("1.1 a.md"));
}

#[test]
fn verify_yaml_phase() {
    let docs = vec![
        doc("a.md", "# sin yaml"),
        doc("b.md", "---\nid: 1\n"),
        doc("c.md", "---\nid: 1\ntitle: T\n---\n"),
        doc("0. Contexualizador.md", "nada"),
    ];
    let p = cmd().check_phase(2, "yaml_validation", "Validación YAML", &docs, &facts());
    assert_eq!(p.errors, vec![
        "a.md: Sin YAML frontmatter".to_string(),
        "b.md: YAML no cerrado (falta '---' final)".to_string(),
        "c.md: Falta YAML: parent, breadcrumb, type, status".to_string(),
    ]);
    assert!(!p.passed);
}

#[test]
fn verify_ids_parents_and_children() {
    let docs = vec![
        doc("a.md", "---\nid: 1\nparent: 0\nchildren_count: 2\n---\n"),
        doc("b.md", "---\nid: 1.1\nparent: 1\n---\n"),
        doc("c.md", "---\nid: 1.1\nparent: 9\n---\n"),
    ];
    let p3 = cmd().check_phase(3, "unique_ids", "IDs únicos", &docs, &facts());
    assert_eq!(p3.errors, vec!["ID DUPLICADO: '1.1' en b.md, c.md".to_string()]);
    let p4 = cmd().check_phase(4, "valid_parents", "Parents válidos", &docs, &facts());
    assert_eq!(p4.errors, vec!["c.md: Parent '9' no existe".to_string()]);
    let p20 = cmd().check_phase(20, "children_count", "Children count válido", &docs, &facts());
    assert_eq!(p20.warnings, vec!["a.md: children_count=2 vs actual=1".to_string()]);
}

#[test]
fn verify_content_phases() {
    let docs = vec![doc(
        "a.md",
        "---\nid: 1\ntype: Rara\nstatus: Activo\n---\n# Uno\n# Dos\n#### Cuatro\n| a | b |\n| 1 | 2 |\n\n```\nTODO\n",
    )];
    let w = |k: u8| cmd().check_phase(k, "x", "y", &docs, &facts()).warnings;
    assert_eq!(w(6), vec!["a.md: Type no estándar: 'Rara'".to_string()]);
    assert!(w(7).is_empty());
    assert_eq!(w(12), vec!["a.md: Code block no cerrado (1 delimitadores)".to_string()]);
    assert_eq!(w(14), vec!["a.md: Tabla en línea 9 sin separador de header".to_string()]);
    assert_eq!(w(15), vec!["a.md: Múltiples H1 (2 encontrados)".to_string(), "a.md: Salto de heading H1 a H4".to_string()]);
    assert_eq!(w(17), vec!["a.md: Placeholder detectado: 'TODO'".to_string()]);
    assert_eq!(w(16).len(), 1);
}

#[test]
fn verify_links_with_facts() {
    let docs = vec![doc("a.md", "[[B]] [[zz]] [[x_y]]"), doc("b.md", "text")];
    let targets = VerifyCommand::link_targets("[[B]] [[zz]] [[x_y]]");
    assert_eq!(targets.len(), 3);
    assert_eq!(targets[0], ("B".to_string(), "B".to_string()));
    let mut f = facts();
    f.links_exist = vec![vec![false, false, false], vec![]];
    let p = cmd().check_phase(9, "internal_links", "Enlaces internos", &docs, &f);
    assert_eq!(p.errors, vec!["a.md: CASE-SENSITIVE [[B]] -> debería ser [[b]]".to_string()]);
    assert_eq!(p.warnings, vec!["a.md: Link roto [[zz]]".to_string()]);
}

#[test]
fn verify_orphans_and_duplicates() {
    let docs = vec![
        doc("a.md", "---\ntitle: Igual\n---\n[[b]]"),
        doc("b.md", "---\ntitle: igual\n---\n"),
        doc("0. ctx.md", "---\n---\n"),
    ];
    let p19 = cmd().check_phase(19, "orphans", "Documentos huérfanos", &docs, &facts());
    assert_eq!(p19.warnings, vec!["HUÉRFANO: a.md".to_string()]);
    let p18 = cmd().check_phase(18, "duplicates", "Duplicados", &docs, &facts());
    assert_eq!(p18.warnings, vec!["Título duplicado 'igual' en: a.md, b.md".to_string()]);
}

#[test]
fn verify_run_selects_phases() {
    let docs = vec![doc("a.md", "---\nid: 1\n---\n")];
    let mut c = cmd();
    c.phase = Some("yaml".to_string());
    let r = c.run(&docs, &facts());
    assert_eq!(r.phases.len(), 1);
    assert_eq!(r.phases[0].id, 2);
    assert!(!r.passed);
    let mut q = cmd();
    q.quick = true;
    let r2 = q.run(&docs, &facts());
    assert_eq!(r2.phases.len(), 18);
    let none = cmd().run(&vec![], &facts());
    assert_eq!(none.phases.len(), 21);
    assert_eq!(none.phases[0].errors, vec!["No se encontraron archivos .md en el directorio".to_string()]);
}

#[test]
fn verify_parse_date() {
    assert!(VerifyCommand::parse_date_to_secs("\"2024-01-02 10:00:00\"").is_some());
    assert!(VerifyCommand::parse_date_to_secs("2024-01-02").is_some());
    assert!(VerifyCommand::parse_date_to_secs("ayer").is_none());
}
