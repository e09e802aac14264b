//! Documentation of the lint rules.

use vstd::prelude::*;
use crate::text::{chars_of, lines, push_str, spec_lines, str_eq, string_of, views};

verus! {

/// What a lint rule checks, why it matters and how to satisfy it.
#[derive(Debug, Clone, Copy)]
pub struct LintRuleDoc {
    pub code: &'static str,
    pub name: &'static str,
    pub description: &'static str,
    pub impact: &'static str,
    pub example_bad: &'static str,
    pub example_good: &'static str,
    pub auto_fixable: bool,
    pub suggestion: &'static str,
}

/// The codes of the documented rules, in order.
pub open spec fn rule_codes() -> Seq<Seq<char>> {
    seq![
        "L001"@,
        "L002"@,
        "L003"@,
        "L004"@,
        "L005"@,
        "L006"@,
        "L007"@,
        "L008"@,
        "L009"@,
        "L010"@,
        "L011"@,
        "L012"@,
        "L013"@,
        "L014"@
    ]
}

/// The names of the documented rules, in the order of their codes.
pub open spec fn rule_names() -> Seq<Seq<char>> {
    seq![
        "Frontmatter"@,
        "Header Hierarchy"@,
        "Trailing Whitespace"@,
        "Final Newline"@,
        "Line Length"@,
        "Code Block Language"@,
        "Duplicate Headers"@,
        "Required Fields"@,
        "Table Header"@,
        "Image Alt Text"@,
        "Table Double Separator"@,
        "Unescaped Pipe in Table Wikilink"@,
        "Nietos Count Mismatch"@,
        "Wikilink Absolute Path"@
    ]
}

/// Which documented rules `lint --fix` repairs, in the order of their codes.
pub open spec fn rule_fixable() -> Seq<bool> {
    seq![false, false, true, true, false, false, false, false, false, false, true, true, true, false]
}

/// The texts of the documented rules, in the order of their codes:
/// description, impact, a wrong example, a right example, and advice.
pub open spec fn rule_texts() -> Seq<(Seq<char>, Seq<char>, Seq<char>, Seq<char>, Seq<char>)> {
    seq![
        ("El archivo debe tener frontmatter YAML al inicio (delimitado por ---)."@, "⚠️ Medio - Los archivos sin frontmatter no pueden ser procesados correctamente."@, "# Mi Documento\n\nContenido..."@, "---\nid: mi_doc\ntitle: Mi Documento\n---\n\n# Mi Documento"@, "Agregar frontmatter YAML con campos id, title, parent, type, status."@),
        ("Los headers deben seguir jerarquía correcta (no saltar niveles)."@, "⚠️ Medio - Afecta la estructura semántica del documento."@, "# Título\n\n### Subtema (salta H2)"@, "# Título\n\n## Sección\n\n### Subtema"@, "Revisar que los headers desciendan gradualmente: H1 → H2 → H3."@),
        ("Las líneas no deben terminar con espacios en blanco."@, "ℹ️ Bajo - Cosmético, no afecta funcionalidad."@, "Esta línea tiene espacios al final   "@, "Esta línea está limpia"@, "Ejecutar: oc_diagdoc lint --fix"@),
        ("Los archivos deben terminar con una línea vacía (newline final)."@, "ℹ️ Bajo - Convención de archivos de texto."@, "Última línea sin newline<EOF>"@, "Última línea\n<EOF>"@, "Ejecutar: oc_diagdoc lint --fix"@),
        ("Las líneas no deben exceder 300 caracteres."@, "⚠️ Medio - Afecta legibilidad en editores."@, "[línea muy larga de más de 300 caracteres...]"@, "Línea de longitud razonable."@, "Dividir líneas largas usando saltos de línea."@),
        ("Los bloques de código deben especificar el lenguaje de programación."@, "ℹ️ Bajo - Cosmético, mejora el resaltado de sintaxis."@, "```\nconst x = 1;\n```"@, "```javascript\nconst x = 1;\n```"@, "Agregar lenguaje: markdown, javascript, rust, python, bash, sql, json, yaml."@),
        ("Los headers no deben repetirse en el mismo documento."@, "⚠️ Medio - Dificulta navegación y referencias."@, "## Introducción\n...\n## Introducción"@, "## Introducción\n...\n## Contexto Adicional"@, "Renombrar headers duplicados para que sean únicos."@),
        ("El frontmatter debe contener campos obligatorios: id, title."@, "❌ Alto - Documentos sin identificador no pueden procesarse."@, "---\ntitle: Solo título\n---"@, "---\nid: mi_doc\ntitle: Mi Documento\n---"@, "Agregar campos faltantes: id, title, parent, type, status."@),
        ("Las tablas deben tener fila de encabezado con separador."@, "⚠️ Medio - Tablas sin header no se renderizan correctamente."@, "| dato1 | dato2 |"@, "| Col1 | Col2 |\n|------|------|\n| dato1 | dato2 |"@, "Agregar fila de encabezado y separador |---|."@),
        ("Las imágenes deben tener texto alternativo (alt text)."@, "⚠️ Medio - Afecta accesibilidad y SEO."@, "![](imagen.png)"@, "![Descripción de la imagen](imagen.png)"@, "Agregar descripción dentro de los corchetes: ![descripción](url)."@),
        ("Las tablas solo deben tener UN separador |---| después del header, no después de cada fila."@, "❌ Alto - Tablas corruptas no se renderizan correctamente."@, "| Col1 | Col2 |\\n|---|---|\\n| dato1 | dato2 |\\n|---|---|"@, "| Col1 | Col2 |\\n|---|---|\\n| dato1 | dato2 |\\n| dato3 | dato4 |"@, "Ejecutar: oc_diagdoc lint --fix --rule L011"@),
        ("Los wikilinks dentro de tablas deben escapar el pipe: [[X\\|Y]] no [[X|Y]]."@, "❌ Alto - El pipe sin escapar rompe la estructura de columnas de la tabla."@, "| [[1.1. identidad|1.1]] | Detalle |"@, "| [[1.1. identidad\\|1.1]] | Detalle |"@, "Ejecutar: oc_diagdoc lint --fix --rule L012"@),
        ("La columna Nietos debe coincidir con descendants_count del archivo enlazado."@, "⚠️ Medio - Información de jerarquía incorrecta en tablas de navegación."@, "| [[1.1. identidad\\|1.1]] | ... | 0 |"@, "| [[1.1. identidad\\|1.1]] | ... | 23 |"@, "Ejecutar: oc_diagdoc lint --fix --rule L013"@),
        ("Los wikilinks no deben usar paths absolutos con prefijo de proyecto."@, "ℹ️ Bajo - Afecta portabilidad y legibilidad."@, "[[Proyecto OnlyCarNLD/Datos/1.1. identidad]]"@, "[[1.1. identidad]]"@, "Revisar manualmente y usar paths relativos."@)
    ]
}

/// `d` is the documentation of the `k`-th rule.
pub open spec fn doc_is(d: LintRuleDoc, k: int) -> bool {
    &&& d.code@ == rule_codes()[k]
    &&& d.name@ == rule_names()[k]
    &&& d.auto_fixable == rule_fixable()[k]
    &&& (d.description@, d.impact@, d.example_bad@, d.example_good@, d.suggestion@) == rule_texts()[k]
}

/// The documentation of every rule, one entry per rule code, in order.
pub fn get_all_rules() -> (rules: Vec<LintRuleDoc>)
    ensures
        rules@.len() == rule_codes().len(),
        forall|k: int| 0 <= k < rules@.len() ==> doc_is(#[trigger] rules@[k], k),
{
    let mut rules: Vec<LintRuleDoc> = Vec::new();
    rules.push(LintRuleDoc {
        code: "L001",
        name: "Frontmatter",
        description: "El archivo debe tener frontmatter YAML al inicio (delimitado por ---).",
        impact: "⚠️ Medio - Los archivos sin frontmatter no pueden ser procesados correctamente.",
        example_bad: "# Mi Documento\n\nContenido...",
        example_good: "---\nid: mi_doc\ntitle: Mi Documento\n---\n\n# Mi Documento",
        auto_fixable: false,
        suggestion: "Agregar frontmatter YAML con campos id, title, parent, type, status.",
    });
    rules.push(LintRuleDoc {
        code: "L002",
        name: "Header Hierarchy",
        description: "Los headers deben seguir jerarquía correcta (no saltar niveles).",
        impact: "⚠️ Medio - Afecta la estructura semántica del documento.",
        example_bad: "# Título\n\n### Subtema (salta H2)",
        example_good: "# Título\n\n## Sección\n\n### Subtema",
        auto_fixable: false,
        suggestion: "Revisar que los headers desciendan gradualmente: H1 → H2 → H3.",
    });
    rules.push(LintRuleDoc {
        code: "L003",
        name: "Trailing Whitespace",
        description: "Las líneas no deben terminar con espacios en blanco.",
        impact: "ℹ️ Bajo - Cosmético, no afecta funcionalidad.",
        example_bad: "Esta línea tiene espacios al final   ",
        example_good: "Esta línea está limpia",
        auto_fixable: true,
        suggestion: "Ejecutar: oc_diagdoc lint --fix",
    });
    rules.push(LintRuleDoc {
        code: "L004",
        name: "Final Newline",
        description: "Los archivos deben terminar con una línea vacía (newline final).",
        impact: "ℹ️ Bajo - Convención de archivos de texto.",
        example_bad: "Última línea sin newline<EOF>",
        example_good: "Última línea\n<EOF>",
        auto_fixable: true,
        suggestion: "Ejecutar: oc_diagdoc lint --fix",
    });
    rules.push(LintRuleDoc {
        code: "L005",
        name: "Line Length",
        description: "Las líneas no deben exceder 300 caracteres.",
        impact: "⚠️ Medio - Afecta legibilidad en editores.",
        example_bad: "[línea muy larga de más de 300 caracteres...]",
        example_good: "Línea de longitud razonable.",
        auto_fixable: false,
        suggestion: "Dividir líneas largas usando saltos de línea.",
    });
    rules.push(LintRuleDoc {
        code: "L006",
        name: "Code Block Language",
        description: "Los bloques de código deben especificar el lenguaje de programación.",
        impact: "ℹ️ Bajo - Cosmético, mejora el resaltado de sintaxis.",
        example_bad: "```\nconst x = 1;\n```",
        example_good: "```javascript\nconst x = 1;\n```",
        auto_fixable: false,
        suggestion: "Agregar lenguaje: markdown, javascript, rust, python, bash, sql, json, yaml.",
    });
    rules.push(LintRuleDoc {
        code: "L007",
        name: "Duplicate Headers",
        description: "Los headers no deben repetirse en el mismo documento.",
        impact: "⚠️ Medio - Dificulta navegación y referencias.",
        example_bad: "## Introducción\n...\n## Introducción",
        example_good: "## Introducción\n...\n## Contexto Adicional",
        auto_fixable: false,
        suggestion: "Renombrar headers duplicados para que sean únicos.",
    });
    rules.push(LintRuleDoc {
        code: "L008",
        name: "Required Fields",
        description: "El frontmatter debe contener campos obligatorios: id, title.",
        impact: "❌ Alto - Documentos sin identificador no pueden procesarse.",
        example_bad: "---\ntitle: Solo título\n---",
        example_good: "---\nid: mi_doc\ntitle: Mi Documento\n---",
        auto_fixable: false,
        suggestion: "Agregar campos faltantes: id, title, parent, type, status.",
    });
    rules.push(LintRuleDoc {
        code: "L009",
        name: "Table Header",
        description: "Las tablas deben tener fila de encabezado con separador.",
        impact: "⚠️ Medio - Tablas sin header no se renderizan correctamente.",
        example_bad: "| dato1 | dato2 |",
        example_good: "| Col1 | Col2 |\n|------|------|\n| dato1 | dato2 |",
        auto_fixable: false,
        suggestion: "Agregar fila de encabezado y separador |---|.",
    });
    rules.push(LintRuleDoc {
        code: "L010",
        name: "Image Alt Text",
        description: "Las imágenes deben tener texto alternativo (alt text).",
        impact: "⚠️ Medio - Afecta accesibilidad y SEO.",
        example_bad: "![](imagen.png)",
        example_good: "![Descripción de la imagen](imagen.png)",
        auto_fixable: false,
        suggestion: "Agregar descripción dentro de los corchetes: ![descripción](url).",
    });
    rules.push(LintRuleDoc {
        code: "L011",
        name: "Table Double Separator",
        description: "Las tablas solo deben tener UN separador |---| después del header, no después de cada fila.",
        impact: "❌ Alto - Tablas corruptas no se renderizan correctamente.",
        example_bad: "| Col1 | Col2 |\\n|---|---|\\n| dato1 | dato2 |\\n|---|---|",
        example_good: "| Col1 | Col2 |\\n|---|---|\\n| dato1 | dato2 |\\n| dato3 | dato4 |",
        auto_fixable: true,
        suggestion: "Ejecutar: oc_diagdoc lint --fix --rule L011",
    });
    rules.push(LintRuleDoc {
        code: "L012",
        name: "Unescaped Pipe in Table Wikilink",
        description: "Los wikilinks dentro de tablas deben escapar el pipe: [[X\\|Y]] no [[X|Y]].",
        impact: "❌ Alto - El pipe sin escapar rompe la estructura de columnas de la tabla.",
        example_bad: "| [[1.1. identidad|1.1]] | Detalle |",
        example_good: "| [[1.1. identidad\\|1.1]] | Detalle |",
        auto_fixable: true,
        suggestion: "Ejecutar: oc_diagdoc lint --fix --rule L012",
    });
    rules.push(LintRuleDoc {
        code: "L013",
        name: "Nietos Count Mismatch",
        description: "La columna Nietos debe coincidir con descendants_count del archivo enlazado.",
        impact: "⚠️ Medio - Información de jerarquía incorrecta en tablas de navegación.",
        example_bad: "| [[1.1. identidad\\|1.1]] | ... | 0 |",
        example_good: "| [[1.1. identidad\\|1.1]] | ... | 23 |",
        auto_fixable: true,
        suggestion: "Ejecutar: oc_diagdoc lint --fix --rule L013",
    });
    rules.push(LintRuleDoc {
        code: "L014",
        name: "Wikilink Absolute Path",
        description: "Los wikilinks no deben usar paths absolutos con prefijo de proyecto.",
        impact: "ℹ️ Bajo - Afecta portabilidad y legibilidad.",
        example_bad: "[[Proyecto OnlyCarNLD/Datos/1.1. identidad]]",
        example_good: "[[1.1. identidad]]",
        auto_fixable: false,
        suggestion: "Revisar manualmente y usar paths relativos.",
    });
    rules
}

/// The documentation of the rule with the given code, if there is one.
pub fn get_rule_doc(code: &str) -> (r: Option<LintRuleDoc>)
    ensures
        match r {
            Some(d) => exists|k: int| 0 <= k < rule_codes().len() && #[trigger] rule_codes()[k] == code@ && doc_is(d, k),
            None => forall|k: int| 0 <= k < rule_codes().len() ==> #[trigger] rule_codes()[k] != code@,
        },
{
    let rules = get_all_rules();
    let mut i: usize = 0;
    while i < rules.len()
        invariant
            i <= rules@.len(),
            rules@.len() == rule_codes().len(),
            forall|k: int| 0 <= k < rules@.len() ==> doc_is(#[trigger] rules@[k], k),
            forall|k: int| 0 <= k < i ==> #[trigger] rule_codes()[k] != code@,
        decreases rules@.len() - i,
    {
        if str_eq(rules[i].code, code) {
            assert(rule_codes()[i as int] == code@);
            return Some(rules[i]);
        }
        i = i + 1;
    }
    None
}

/// Each line of an example indented by three spaces.
pub open spec fn indented(ls: Seq<Seq<char>>) -> Seq<char>
    decreases ls.len(),
{
    if ls.len() == 0 { Seq::empty() } else { indented(ls.drop_last()) + "   "@ + ls.last() + "\n"@ }
}

/// The explanation of a rule: its title, description, a wrong and a right
/// example, its impact, whether it can be fixed automatically, and advice.
pub open spec fn spec_explain(d: LintRuleDoc) -> Seq<char> {
    "\n📘 REGLA "@ + d.code@ + ": "@ + d.name@ + "\n═══════════════════════════════════════════════════════════════\n\n📋 DESCRIPCIÓN:\n   "@ + d.description@
        + "\n\n❌ INCORRECTO:\n"@ + indented(spec_lines(d.example_bad@)) + "\n✅ CORRECTO:\n"@
        + indented(spec_lines(d.example_good@)) + "\n🔧 IMPACTO: "@ + d.impact@ + "\n📊 AUTO-FIX: "@
        + (if d.auto_fixable { "Disponible"@ } else { "No disponible"@ }) + "\n\n💡 SUGERENCIA:\n   "@
        + d.suggestion@ + "\n\n"@
}

/// Appends the indented lines of an example.
fn push_indented(s: &mut String, text: &str)
    ensures
        final(s)@ == old(s)@ + indented(spec_lines(text@)),
{
    let ls = lines(&chars_of(text));
    let ghost lv = views(ls@);
    let ghost s0 = s@;
    let mut i: usize = 0;
    assert(lv.subrange(0, 0) =~= Seq::<Seq<char>>::empty());
    while i < ls.len()
        invariant
            i <= ls@.len(),
            lv == views(ls@),
            lv == spec_lines(text@),
            s@ == s0 + indented(lv.subrange(0, i as int)),
        decreases ls@.len() - i,
    {
        let ghost sub = lv.subrange(0, i + 1);
        assert(sub.drop_last() =~= lv.subrange(0, i as int));
        assert(sub.last() == ls@[i as int]@);
        push_str(s, "   ");
        push_str(s, string_of(ls[i].as_slice()).as_str());
        push_str(s, "\n");
        assert(s@ =~= s0 + indented(sub));
        i = i + 1;
    }
    assert(lv.subrange(0, ls@.len() as int) =~= lv);
}

/// The explanation of a documented rule.
pub fn explain_rule(d: &LintRuleDoc) -> (s: String)
    ensures
        s@ == spec_explain(*d),
{
    let mut s = String::new();
    push_str(&mut s, "\n📘 REGLA ");
    push_str(&mut s, d.code);
    push_str(&mut s, ": ");
    push_str(&mut s, d.name);
    push_str(&mut s, "\n═══════════════════════════════════════════════════════════════\n\n📋 DESCRIPCIÓN:\n   ");
    push_str(&mut s, d.description);
    push_str(&mut s, "\n\n❌ INCORRECTO:\n");
    push_indented(&mut s, d.example_bad);
    push_str(&mut s, "\n✅ CORRECTO:\n");
    push_indented(&mut s, d.example_good);
    push_str(&mut s, "\n🔧 IMPACTO: ");
    push_str(&mut s, d.impact);
    push_str(&mut s, "\n📊 AUTO-FIX: ");
    push_str(&mut s, if d.auto_fixable { "Disponible" } else { "No disponible" });
    push_str(&mut s, "\n\n💡 SUGERENCIA:\n   ");
    push_str(&mut s, d.suggestion);
    push_str(&mut s, "\n\n");
    s
}

/// The explanation of the rule with the given code, or, for an unknown
/// code, the message that says so and lists the valid codes.
pub fn rule_explanation(code: &str) -> (r: Result<String, String>)
    ensures
        match r {
            Ok(t) => exists|d: LintRuleDoc| #![trigger spec_explain(d)] d.code@ == code@ && t@ == spec_explain(d)
                && exists|k: int| 0 <= k < rule_codes().len() && #[trigger] rule_codes()[k] == code@ && doc_is(d, k),
            Err(t) => (forall|k: int| 0 <= k < rule_codes().len() ==> #[trigger] rule_codes()[k] != code@)
                && t@ == "❌ Regla '"@ + code@ + "' no encontrada.\n   Reglas válidas: L001-L014\n"@,
        },
{
    match get_rule_doc(code) {
        Some(d) => Ok(explain_rule(&d)),
        None => {
            let mut t = String::new();
            push_str(&mut t, "❌ Regla '");
            push_str(&mut t, code);
            push_str(&mut t, "' no encontrada.\n   Reglas válidas: L001-L014\n");
            Err(t)
        },
    }
}

} // verus!
