use oc_diagdoc::yaml::{add_field, count_words, split_frontmatter, update_field, YamlFrontmatter};

const SAMPLE_DOC: &str = r#"---
id: "3.1.2"
title: "Documento de Prueba"
parent: "3.1"
breadcrumb: "Módulo 3 > Sección 1 > Documento 2"
status: active
created: "2026-01-15"
last_updated: "2026-01-30"
---

# Contenido del Documento

Este es el body del documento.

## Sección 2

Más contenido aquí.
"#;

#[test]
fn test_split_frontmatter_body() {
    let parts = split_frontmatter(SAMPLE_DOC).unwrap();
    assert!(parts.body.starts_with("# Contenido"));
    assert!(!parts.body.contains("id:"));
    assert!(parts.yaml_raw.starts_with("id: \"3.1.2\""));
}

#[test]
fn test_missing_frontmatter_framing() {
    assert!(split_frontmatter("# No hay frontmatter aquí").is_err());
}

#[test]
fn test_update_field() {
    let updated = update_field(SAMPLE_DOC, "status", "reviewed").unwrap();
    assert!(updated.contains("status: reviewed"));
    assert!(!updated.contains("status: active"));
}

#[test]
fn test_add_field() {
    let updated = add_field(SAMPLE_DOC, "priority", "high").unwrap();
    assert!(updated.contains("priority: high"));
}

#[test]
fn test_add_field_exact() {
    let updated = add_field("---\nid: 1\n---\nbody", "k", "v").unwrap();
    assert_eq!(updated, "---\nid: 1\nk: v\n---\nbody");
}

#[test]
fn test_count_words() {
    let body = r#"
# Título

Este es un párrafo con siete palabras aquí.

```rust
// Este código no cuenta
fn main() {}
```

Más texto después del código.
"#;
    let count = count_words(body);
    assert!(count > 10);
    assert_eq!(count, 14);
}

#[test]
fn test_validate_frontmatter_fields() {
    let fm = YamlFrontmatter::builder().id("1.2").title("T").build();
    assert!(fm.is_ok());
    let fm = YamlFrontmatter::builder().title("T").build();
    assert!(fm.is_err());
    let fm = YamlFrontmatter::default();
    assert_eq!(fm.status, "draft");
}

#[test]
fn test_extract_body() {
    let body = oc_diagdoc::yaml::extract_body(SAMPLE_DOC).unwrap();
    assert!(body.starts_with("# Contenido"));
    assert!(!body.contains("id:"));
}

#[test]
fn yaml_extract_body_without_frontmatter() {
    assert!(oc_diagdoc::yaml::extract_body("# nada").is_err());
}
