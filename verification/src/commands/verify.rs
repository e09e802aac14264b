//! Verification of the whole documentation in phases.

use vstd::prelude::*;
use crate::fields::{spec_yaml_field, yaml_field};
use crate::hash::{short_content_hash, spec_short_hash};
use crate::commands::stats::{body_words, doc_words};
use crate::patterns::{cap_at, cap_group, captures_all, opt_strs, spec_captures_all, RE_MERMAID, RE_OBSIDIAN_EMBED, RE_IMAGE, RE_WIKI_LINK_WITH_ALIAS};
use crate::commands::lint::hashes;
use crate::commands::tree::{kids_add, kids_add_exec, kids_index, kids_view, KidsEntry};
use crate::commands::stats::{trim_backslashes, trim_bs};
use crate::text::{concat3, split, spec_split, parse_usize, lines, views, spec_lines, ends_with, spec_ends_with, spec_count_from, count_matches, spec_trim, trim, 
    chars_of, concat2, decimal, digits_value_upto, join, owned, push_str, slice_to_vec, spec_contains, spec_decimal,
    spec_find, spec_join, spec_parse_unsigned, spec_starts_with, spec_to_lowercase, starts_with, str_eq,
    string_of, strs, to_lowercase, find,
};

verus! {

/// One phase of a verification.
#[derive(Debug, Clone)]
pub struct VerificationPhase {
    pub id: u8,
    pub name: String,
    pub description: String,
    pub passed: bool,
    pub errors: Vec<String>,
    pub warnings: Vec<String>,
    pub duration_ms: u64,
}

impl VerificationPhase {
    /// A phase that has passed so far.
    pub fn new(id: u8, name: &str, description: &str) -> (p: VerificationPhase)
        ensures
            p.id == id,
            p.name@ == name@,
            p.description@ == description@,
            p.passed,
            p.errors@.len() == 0,
            p.warnings@.len() == 0,
            p.duration_ms == 0,
    {
        VerificationPhase {
            id,
            name: owned(name),
            description: owned(description),
            passed: true,
            errors: Vec::new(),
            warnings: Vec::new(),
            duration_ms: 0,
        }
    }

    /// Records an error: the phase fails.
    pub fn add_error(&mut self, error: &str)
        ensures
            strs(final(self).errors@) == strs(old(self).errors@).push(error@),
            final(self).warnings@ == old(self).warnings@,
            !final(self).passed,
            final(self).id == old(self).id,
            final(self).name == old(self).name,
            final(self).description == old(self).description,
            final(self).duration_ms == old(self).duration_ms,
    {
        let ghost e0 = strs(self.errors@);
        self.errors.push(owned(error));
        assert(strs(self.errors@) =~= e0.push(error@));
        self.passed = false;
    }

    /// Records a warning.
    pub fn add_warning(&mut self, warning: &str)
        ensures
            strs(final(self).warnings@) == strs(old(self).warnings@).push(warning@),
            final(self).errors@ == old(self).errors@,
            final(self).passed == old(self).passed,
            final(self).id == old(self).id,
            final(self).name == old(self).name,
            final(self).description == old(self).description,
            final(self).duration_ms == old(self).duration_ms,
    {
        let ghost w0 = strs(self.warnings@);
        self.warnings.push(owned(warning));
        assert(strs(self.warnings@) =~= w0.push(warning@));
    }

    /// Sets how long the phase took.
    pub fn set_duration(&mut self, ms: u64)
        ensures
            final(self).duration_ms == ms,
            final(self).errors@ == old(self).errors@,
            final(self).warnings@ == old(self).warnings@,
            final(self).passed == old(self).passed,
            final(self).id == old(self).id,
            final(self).name == old(self).name,
            final(self).description == old(self).description,
    {
        self.duration_ms = ms;
    }
}

/// The outcome of a verification.
#[derive(Debug, Clone)]
pub struct VerificationResult {
    pub phases: Vec<VerificationPhase>,
    pub total_errors: usize,
    pub total_warnings: usize,
    pub passed: bool,
    pub duration_ms: u64,
}

/// Errors over the phases.
pub open spec fn errors_of(ps: Seq<VerificationPhase>) -> nat
    decreases ps.len(),
{
    if ps.len() == 0 { 0 } else { errors_of(ps.drop_last()) + ps.last().errors@.len() }
}

/// Warnings over the phases.
pub open spec fn warnings_of(ps: Seq<VerificationPhase>) -> nat
    decreases ps.len(),
{
    if ps.len() == 0 { 0 } else { warnings_of(ps.drop_last()) + ps.last().warnings@.len() }
}

/// Phases that passed.
pub open spec fn passed_of(ps: Seq<VerificationPhase>) -> nat
    decreases ps.len(),
{
    if ps.len() == 0 { 0 } else { passed_of(ps.drop_last()) + if ps.last().passed { 1nat } else { 0nat } }
}

proof fn lemma_passed_bound(ps: Seq<VerificationPhase>)
    ensures
        passed_of(ps) <= ps.len(),
    decreases ps.len(),
{
    if ps.len() > 0 {
        lemma_passed_bound(ps.drop_last());
    }
}

impl VerificationResult {
    /// The totals agree with the phases, and the result has passed exactly
    /// when every phase has.
    pub open spec fn wf(&self) -> bool {
        &&& self.total_errors == errors_of(self.phases@)
        &&& self.total_warnings == warnings_of(self.phases@)
        &&& self.passed == (passed_of(self.phases@) == self.phases@.len())
    }

    /// No phase yet.
    pub fn new() -> (r: VerificationResult)
        ensures
            r.phases@.len() == 0,
            r.total_errors == 0,
            r.total_warnings == 0,
            r.passed,
            r.duration_ms == 0,
            r.wf(),
    {
        VerificationResult { phases: Vec::new(), total_errors: 0, total_warnings: 0, passed: true, duration_ms: 0 }
    }

    /// Adds a phase: its errors and warnings are counted, and a failed
    /// phase fails the result.
    pub fn add_phase(&mut self, phase: VerificationPhase)
        requires
            old(self).total_errors + phase.errors@.len() <= usize::MAX,
            old(self).total_warnings + phase.warnings@.len() <= usize::MAX,
        ensures
            final(self).phases@ == old(self).phases@.push(phase),
            final(self).total_errors == old(self).total_errors + phase.errors@.len(),
            final(self).total_warnings == old(self).total_warnings + phase.warnings@.len(),
            final(self).passed == (old(self).passed && phase.passed),
            final(self).duration_ms == old(self).duration_ms,
            old(self).wf() ==> final(self).wf(),
    {
        let ghost p0 = self.phases@;
        self.total_errors = self.total_errors + phase.errors.len();
        self.total_warnings = self.total_warnings + phase.warnings.len();
        if !phase.passed {
            self.passed = false;
        }
        self.phases.push(phase);
        proof {
            assert(self.phases@.drop_last() =~= p0);
            lemma_passed_bound(p0);
        }
    }

    /// The number of phases that passed.
    pub fn phases_passed(&self) -> (n: usize)
        ensures
            n == passed_of(self.phases@),
    {
        let mut n: usize = 0;
        let mut i: usize = 0;
        while i < self.phases.len()
            invariant
                i <= self.phases@.len(),
                n == passed_of(self.phases@.subrange(0, i as int)),
                n <= i,
            decreases self.phases@.len() - i,
        {
            assert(self.phases@.subrange(0, i + 1).drop_last() =~= self.phases@.subrange(0, i as int));
            if self.phases[i].passed {
                n = n + 1;
            }
            i = i + 1;
        }
        assert(self.phases@.subrange(0, self.phases@.len() as int) =~= self.phases@);
        n
    }

    /// The number of phases that failed.
    pub fn phases_failed(&self) -> (n: usize)
        ensures
            n == self.phases@.len() - passed_of(self.phases@),
    {
        let p = self.phases_passed();
        proof {
            lemma_passed_bound(self.phases@);
        }
        self.phases.len() - p
    }
}

impl Default for VerificationResult {
    fn default() -> (r: VerificationResult)
        ensures
            r.phases@.len() == 0,
            r.total_errors == 0,
            r.total_warnings == 0,
            r.passed,
            r.duration_ms == 0,
    {
        VerificationResult::new()
    }
}

/// Options of the verify command.
#[derive(Debug, Clone)]
pub struct VerifyCommand {
    pub path: Option<String>,
    pub schema_strict: bool,
    pub json: bool,
    pub phase: Option<String>,
    pub quiet: bool,
    pub quick: bool,
    pub progress: bool,
    pub cache: bool,
    pub root_only: bool,
    pub exclude: Vec<String>,
}

/// The phases, as (number, name, description).
pub open spec fn phase_specs() -> Seq<(u8, Seq<char>, Seq<char>)> {
    seq![
        (1u8, "file_count"@, "Conteo de archivos"@),
        (2u8, "yaml_validation"@, "Validación YAML"@),
        (3u8, "unique_ids"@, "IDs únicos"@),
        (4u8, "valid_parents"@, "Parents válidos"@),
        (5u8, "breadcrumbs"@, "Breadcrumbs consistentes"@),
        (6u8, "types"@, "Types consistentes"@),
        (7u8, "status"@, "Status válidos"@),
        (8u8, "dates_sync"@, "Fechas sincronizadas"@),
        (9u8, "internal_links"@, "Enlaces internos"@),
        (10u8, "embeds"@, "Embeds válidos"@),
        (11u8, "images"@, "Imágenes existentes"@),
        (12u8, "code_blocks"@, "Código blocks"@),
        (13u8, "mermaid"@, "Diagramas Mermaid"@),
        (14u8, "tables"@, "Tablas Markdown"@),
        (15u8, "headings"@, "Estructura headings"@),
        (16u8, "min_content"@, "Contenido mínimo"@),
        (17u8, "placeholders"@, "Placeholders detectados"@),
        (18u8, "duplicates"@, "Duplicados"@),
        (19u8, "orphans"@, "Documentos huérfanos"@),
        (20u8, "children_count"@, "Children count válido"@),
        (21u8, "hash_integrity"@, "Hash integridad"@)
    ]
}

/// The phases.
pub fn phase_table() -> (v: Vec<(u8, &'static str, &'static str)>)
    ensures
        v@.len() == phase_specs().len(),
        forall|k: int| 0 <= k < v@.len() ==> (#[trigger] v@[k]).0 == phase_specs()[k].0
            && v@[k].1@ == phase_specs()[k].1 && v@[k].2@ == phase_specs()[k].2,
{
    let mut v: Vec<(u8, &'static str, &'static str)> = Vec::new();
    v.push((1u8, "file_count", "Conteo de archivos"));
    v.push((2u8, "yaml_validation", "Validación YAML"));
    v.push((3u8, "unique_ids", "IDs únicos"));
    v.push((4u8, "valid_parents", "Parents válidos"));
    v.push((5u8, "breadcrumbs", "Breadcrumbs consistentes"));
    v.push((6u8, "types", "Types consistentes"));
    v.push((7u8, "status", "Status válidos"));
    v.push((8u8, "dates_sync", "Fechas sincronizadas"));
    v.push((9u8, "internal_links", "Enlaces internos"));
    v.push((10u8, "embeds", "Embeds válidos"));
    v.push((11u8, "images", "Imágenes existentes"));
    v.push((12u8, "code_blocks", "Código blocks"));
    v.push((13u8, "mermaid", "Diagramas Mermaid"));
    v.push((14u8, "tables", "Tablas Markdown"));
    v.push((15u8, "headings", "Estructura headings"));
    v.push((16u8, "min_content", "Contenido mínimo"));
    v.push((17u8, "placeholders", "Placeholders detectados"));
    v.push((18u8, "duplicates", "Duplicados"));
    v.push((19u8, "orphans", "Documentos huérfanos"));
    v.push((20u8, "children_count", "Children count válido"));
    v.push((21u8, "hash_integrity", "Hash integridad"));
    v
}

/// The phase a (lower-cased) name designates.
pub open spec fn phase_by_name(s: Seq<char>) -> Option<u8> {
    if s == "file_count"@ || s == "files"@ {
        Some(1u8)
    } else if s == "yaml"@ || s == "yaml_validation"@ {
        Some(2u8)
    } else if s == "unique_ids"@ || s == "ids"@ {
        Some(3u8)
    } else if s == "valid_parents"@ || s == "parents"@ {
        Some(4u8)
    } else if s == "breadcrumbs"@ || s == "breadcrumb"@ {
        Some(5u8)
    } else if s == "types"@ || s == "type"@ {
        Some(6u8)
    } else if s == "status"@ {
        Some(7u8)
    } else if s == "dates_sync"@ || s == "dates"@ {
        Some(8u8)
    } else if s == "internal_links"@ || s == "links"@ {
        Some(9u8)
    } else if s == "embeds"@ {
        Some(10u8)
    } else if s == "images"@ {
        Some(11u8)
    } else if s == "code_blocks"@ || s == "code"@ {
        Some(12u8)
    } else if s == "mermaid"@ {
        Some(13u8)
    } else if s == "tables"@ {
        Some(14u8)
    } else if s == "headings"@ {
        Some(15u8)
    } else if s == "min_content"@ || s == "content"@ {
        Some(16u8)
    } else if s == "placeholders"@ {
        Some(17u8)
    } else if s == "duplicates"@ {
        Some(18u8)
    } else if s == "orphans"@ {
        Some(19u8)
    } else if s == "children_count"@ || s == "children"@ {
        Some(20u8)
    } else if s == "hash_integrity"@ || s == "hash"@ {
        Some(21u8)
    } else {
        None
    }
}

/// The phase an input designates: its number from 1 to 21, or its name in
/// any case.
pub open spec fn spec_parse_phase(input: Seq<char>) -> Option<u8> {
    match spec_parse_unsigned(input, 255) {
        Some(n) => if 1 <= n <= 21 { Some(n as u8) } else { phase_by_name(spec_to_lowercase(input)) },
        None => phase_by_name(spec_to_lowercase(input)),
    }
}

/// The phase of a lower-cased name.
fn phase_by_name_exec(l: &str) -> (r: Option<u8>)
    ensures
        r == phase_by_name(l@),
{
    if str_eq(l, "file_count") || str_eq(l, "files") {
        Some(1u8)
    } else if str_eq(l, "yaml") || str_eq(l, "yaml_validation") {
        Some(2u8)
    } else if str_eq(l, "unique_ids") || str_eq(l, "ids") {
        Some(3u8)
    } else if str_eq(l, "valid_parents") || str_eq(l, "parents") {
        Some(4u8)
    } else if str_eq(l, "breadcrumbs") || str_eq(l, "breadcrumb") {
        Some(5u8)
    } else if str_eq(l, "types") || str_eq(l, "type") {
        Some(6u8)
    } else if str_eq(l, "status") {
        Some(7u8)
    } else if str_eq(l, "dates_sync") || str_eq(l, "dates") {
        Some(8u8)
    } else if str_eq(l, "internal_links") || str_eq(l, "links") {
        Some(9u8)
    } else if str_eq(l, "embeds") {
        Some(10u8)
    } else if str_eq(l, "images") {
        Some(11u8)
    } else if str_eq(l, "code_blocks") || str_eq(l, "code") {
        Some(12u8)
    } else if str_eq(l, "mermaid") {
        Some(13u8)
    } else if str_eq(l, "tables") {
        Some(14u8)
    } else if str_eq(l, "headings") {
        Some(15u8)
    } else if str_eq(l, "min_content") || str_eq(l, "content") {
        Some(16u8)
    } else if str_eq(l, "placeholders") {
        Some(17u8)
    } else if str_eq(l, "duplicates") {
        Some(18u8)
    } else if str_eq(l, "orphans") {
        Some(19u8)
    } else if str_eq(l, "children_count") || str_eq(l, "children") {
        Some(20u8)
    } else if str_eq(l, "hash_integrity") || str_eq(l, "hash") {
        Some(21u8)
    } else {
        None
    }
}

/// The phase an input designates (see [`spec_parse_phase`]).
pub fn parse_phase(input: &str) -> (r: Option<u8>)
    ensures
        r == spec_parse_phase(input@),
        crate::text::all_ascii(input@) && !(spec_parse_unsigned(input@, 255) matches Some(n) && 1 <= n <= 21)
            ==> r == phase_by_name(input@.map_values(|c: char| crate::text::ascii_lower(c))),
{
    let c = chars_of(input);
    let d = if c.len() > 0 && c[0] == '+' { slice_to_vec(&c, 1, c.len()) } else { slice_to_vec(&c, 0, c.len()) };
    assert(c@.subrange(0, c@.len() as int) =~= c@);
    assert(c@.len() > 0 ==> c@.subrange(1, c@.len() as int) =~= c@.drop_first());
    match digits_value_upto(&d, 255) {
        Some(n) => {
            if 1 <= n && n <= 21 {
                return Some(n as u8);
            }
        },
        None => {},
    }
    let l = to_lowercase(input);
    phase_by_name_exec(l.as_str())
}

/// The document types accepted without a warning.
pub open spec fn valid_types() -> Seq<Seq<char>> {
    seq![
        "hoja"@,
        "modulo_padre"@,
        "seccion"@,
        "contenedor"@,
        "indice"@,
        "indice_maestro"@,
        "especificacion"@,
        "documento"@,
        "padre"@,
        "integracion"@,
        "testing"@,
        "feature"@,
        "estrategia"@,
        "configuracion"@,
        "config"@,
        "perfil"@,
        "edge_case"@,
        "arquitectura"@,
        "seguridad"@,
        "plugin"@,
        "optimizacion"@,
        "infraestructura"@,
        "esquema"@,
        "ux"@,
        "referencia"@,
        "proceso"@,
        "planificacion"@,
        "logica"@,
        "legal"@,
        "vision"@,
        "reglas"@,
        "programa"@,
        "privacidad"@,
        "politica"@,
        "plantilla"@,
        "manejo_errores"@,
        "guia"@,
        "formulario"@,
        "flujo"@,
        "fallback"@,
        "componente"@,
        "automatizacion"@,
        "api"@,
        "analytics"@,
        "algoritmo"@,
        "admin"@,
        "accesibilidad"@
    ]
}

/// The statuses accepted without a warning.
pub open spec fn valid_statuses() -> Seq<Seq<char>> {
    seq![
        "activo"@,
        "aceptado"@,
        "preparado"@,
        "borrador"@,
        "pendiente"@,
        "futuro"@,
        "deprecado"@,
        "stub"@,
        "draft"@,
        "review"@,
        "approved"@
    ]
}

/// The accepted document types.
fn valid_types_exec() -> (v: Vec<&'static str>)
    ensures
        v@.len() == valid_types().len(),
        forall|k: int| 0 <= k < v@.len() ==> (#[trigger] v@[k])@ == valid_types()[k],
{
    let mut v: Vec<&'static str> = Vec::new();
    v.push("hoja");
    v.push("modulo_padre");
    v.push("seccion");
    v.push("contenedor");
    v.push("indice");
    v.push("indice_maestro");
    v.push("especificacion");
    v.push("documento");
    v.push("padre");
    v.push("integracion");
    v.push("testing");
    v.push("feature");
    v.push("estrategia");
    v.push("configuracion");
    v.push("config");
    v.push("perfil");
    v.push("edge_case");
    v.push("arquitectura");
    v.push("seguridad");
    v.push("plugin");
    v.push("optimizacion");
    v.push("infraestructura");
    v.push("esquema");
    v.push("ux");
    v.push("referencia");
    v.push("proceso");
    v.push("planificacion");
    v.push("logica");
    v.push("legal");
    v.push("vision");
    v.push("reglas");
    v.push("programa");
    v.push("privacidad");
    v.push("politica");
    v.push("plantilla");
    v.push("manejo_errores");
    v.push("guia");
    v.push("formulario");
    v.push("flujo");
    v.push("fallback");
    v.push("componente");
    v.push("automatizacion");
    v.push("api");
    v.push("analytics");
    v.push("algoritmo");
    v.push("admin");
    v.push("accesibilidad");
    v
}

/// The accepted statuses.
fn valid_statuses_exec() -> (v: Vec<&'static str>)
    ensures
        v@.len() == valid_statuses().len(),
        forall|k: int| 0 <= k < v@.len() ==> (#[trigger] v@[k])@ == valid_statuses()[k],
{
    let mut v: Vec<&'static str> = Vec::new();
    v.push("activo");
    v.push("aceptado");
    v.push("preparado");
    v.push("borrador");
    v.push("pendiente");
    v.push("futuro");
    v.push("deprecado");
    v.push("stub");
    v.push("draft");
    v.push("review");
    v.push("approved");
    v
}

/// Whether `t` is one of the texts of `v`.
fn among(v: &Vec<&'static str>, t: &str) -> (r: bool)
    ensures
        r == exists|k: int| 0 <= k < v@.len() && (#[trigger] v@[k])@ == t@,
{
    let mut i: usize = 0;
    while i < v.len()
        invariant
            i <= v@.len(),
            forall|k: int| 0 <= k < i ==> (#[trigger] v@[k])@ != t@,
        decreases v@.len() - i,
    {
        if str_eq(v[i], t) {
            return true;
        }
        i = i + 1;
    }
    false
}

impl VerifyCommand {
    /// The exit status of a verification: 0 when it passed, 1 with errors,
    /// 2 with warnings only.
    pub fn exit_code(result: &VerificationResult) -> (c: i32)
        ensures
            c == if result.passed { 0i32 } else if result.total_errors > 0 { 1i32 } else { 2i32 },
    {
        if result.passed {
            0
        } else if result.total_errors > 0 {
            1
        } else {
            2
        }
    }

    /// Whether a file is a test file, by its name's prefix.
    pub fn is_test_file(name: &str) -> (r: bool)
        ensures
            r == (spec_starts_with(name@, "TRAP_"@) || spec_starts_with(name@, "AUTOTEST_"@)
                || spec_starts_with(name@, "QUANTUM_TRAP_"@) || spec_starts_with(name@, "TEST_"@)
                || spec_starts_with(name@, "HARDTEST_"@)),
    {
        let n = chars_of(name);
        starts_with(&n, &chars_of("TRAP_")) || starts_with(&n, &chars_of("AUTOTEST_"))
            || starts_with(&n, &chars_of("QUANTUM_TRAP_")) || starts_with(&n, &chars_of("TEST_"))
            || starts_with(&n, &chars_of("HARDTEST_"))
    }
}

// ─────────────────────────────────────────────────────────────────────────
// Phases on the documents' texts
// ─────────────────────────────────────────────────────────────────────────

/// A file as (file name, file stem, content when it could be read).
pub type VDoc = (Option<Seq<char>>, Option<Seq<char>>, Option<Seq<char>>);

/// The views of the files.
pub open spec fn vdocs_view(v: Seq<(Option<String>, Option<String>, Option<String>)>) -> Seq<VDoc> {
    v.map_values(|x: (Option<String>, Option<String>, Option<String>)| (
        match x.0 { Some(s) => Some(s@), None => None },
        match x.1 { Some(s) => Some(s@), None => None },
        match x.2 { Some(s) => Some(s@), None => None },
    ))
}

/// The name a file is reported under.
pub open spec fn shown_name(d: VDoc) -> Seq<char> {
    match d.0 { Some(n) => n, None => "unknown"@ }
}

/// The fields every front matter must have.
pub open spec fn required_fields() -> Seq<Seq<char>> {
    seq!["id"@, "title"@, "parent"@, "breadcrumb"@, "type"@, "status"@]
}

/// The required fields among the first `k` that a text lacks.
pub open spec fn missing_fields(c: Seq<char>, k: nat) -> Seq<Seq<char>>
    decreases k,
{
    if k == 0 || k > 6 {
        Seq::empty()
    } else {
        let p = missing_fields(c, (k - 1) as nat);
        if spec_yaml_field(c, required_fields()[k - 1]) is None { p.push(required_fields()[k - 1]) } else { p }
    }
}

/// The texts that reveal unfinished content, in the order they are tried.
pub open spec fn placeholder_patterns() -> Seq<Seq<char>> {
    seq!["TBD"@, "TODO"@, "FIXME"@, "XXX"@, "PENDING"@, "[PENDIENTE]"@, "[TODO]"@, "[TBD]"@,
        "Lorem ipsum"@, "placeholder"@, "PLACEHOLDER"@, "Contenido pendiente"@, "Por definir"@]
}

/// The first placeholder pattern among the first `k` that occurs in `c`.
pub open spec fn first_placeholder(c: Seq<char>, k: nat) -> Option<Seq<char>>
    decreases k,
{
    if k == 0 || k > 13 {
        None
    } else {
        match first_placeholder(c, (k - 1) as nat) {
            Some(p) => Some(p),
            None => if spec_contains(c, placeholder_patterns()[k - 1]) { Some(placeholder_patterns()[k - 1]) } else { None },
        }
    }
}

/// Errors of the front matter phase for one file: no front matter, an
/// unclosed one, or missing required fields (the context file excepted).
pub open spec fn yaml_errors(d: VDoc) -> Seq<Seq<char>> {
    match (d.0, d.2) {
        (Some(name), Some(c)) => if name == "0. Contexualizador.md"@ {
            Seq::empty()
        } else if !spec_starts_with(c, "---"@) {
            seq![name + ": Sin YAML frontmatter"@]
        } else if spec_find(c.skip(3), "---"@) is None {
            seq![name + ": YAML no cerrado (falta '---' final)"@]
        } else if missing_fields(c, 6).len() > 0 {
            seq![name + ": Falta YAML: "@ + spec_join(missing_fields(c, 6), ", "@)]
        } else {
            Seq::empty()
        },
        _ => Seq::empty(),
    }
}

/// Warning of the breadcrumb phase: the breadcrumb does not contain the id.
pub open spec fn breadcrumb_warnings(d: VDoc) -> Seq<Seq<char>> {
    match d.2 {
        Some(c) => match (spec_yaml_field(c, "id"@), spec_yaml_field(c, "breadcrumb"@)) {
            (Some(id), Some(bc)) => if !spec_contains(bc, id) {
                seq![shown_name(d) + ": Breadcrumb inconsistente (ID '"@ + id + "' no en '"@ + bc + "')"@]
            } else {
                Seq::empty()
            },
            _ => Seq::empty(),
        },
        None => Seq::empty(),
    }
}

/// Warning of the type phase: a type outside the accepted ones (in any case).
pub open spec fn type_warnings(d: VDoc) -> Seq<Seq<char>> {
    match d.2 {
        Some(c) => match spec_yaml_field(c, "type"@) {
            Some(t) => if !valid_types().contains(spec_to_lowercase(t)) {
                seq![shown_name(d) + ": Type no estándar: '"@ + t + "'"@]
            } else {
                Seq::empty()
            },
            None => Seq::empty(),
        },
        None => Seq::empty(),
    }
}

/// Warning of the status phase: a status outside the accepted ones.
pub open spec fn status_warnings(d: VDoc) -> Seq<Seq<char>> {
    match d.2 {
        Some(c) => match spec_yaml_field(c, "status"@) {
            Some(t) => if !valid_statuses().contains(spec_to_lowercase(t)) {
                seq![shown_name(d) + ": Status no estándar: '"@ + t + "'"@]
            } else {
                Seq::empty()
            },
            None => Seq::empty(),
        },
        None => Seq::empty(),
    }
}

/// Warning of the code block phase: an odd number of fences.
pub open spec fn fence_warnings(d: VDoc) -> Seq<Seq<char>> {
    match d.2 {
        Some(c) => {
            let n = spec_count_from(c, "```"@, 0);
            if n % 2 != 0 {
                seq![shown_name(d) + ": Code block no cerrado ("@ + spec_decimal(n) + " delimitadores)"@]
            } else {
                Seq::empty()
            }
        },
        None => Seq::empty(),
    }
}

/// Warning of the content phase: fewer than 50 words in the body.
pub open spec fn content_warnings(d: VDoc) -> Seq<Seq<char>> {
    match d.2 {
        Some(c) => if doc_words(c) < 50 {
            seq![shown_name(d) + ": Contenido mínimo ("@ + spec_decimal(doc_words(c)) + " palabras, mínimo 50)"@]
        } else {
            Seq::empty()
        },
        None => Seq::empty(),
    }
}

/// Warning of the placeholder phase: the first placeholder found.
pub open spec fn placeholder_warnings(d: VDoc) -> Seq<Seq<char>> {
    match d.2 {
        Some(c) => match first_placeholder(c, 13) {
            Some(p) => seq![shown_name(d) + ": Placeholder detectado: '"@ + p + "'"@],
            None => Seq::empty(),
        },
        None => Seq::empty(),
    }
}

/// The stored hash without blanks and double quotes around it.
pub open spec fn stored_hash_text(h: Seq<char>) -> Seq<char> {
    strip_dquotes(spec_trim(h))
}

/// `s` without double quotes at either end.
pub open spec fn strip_dquotes(s: Seq<char>) -> Seq<char>
    decreases s.len(),
{
    if s.len() > 0 && s[0] == '"' {
        strip_dquotes(s.drop_first())
    } else if s.len() > 0 && s.last() == '"' {
        strip_dquotes(s.drop_last())
    } else {
        s
    }
}

/// Warning of the hash phase: a stored hash that differs from the short
/// hash of the text.
pub open spec fn hash_warnings(d: VDoc) -> Seq<Seq<char>> {
    match d.2 {
        Some(c) => match spec_yaml_field(c, "content_hash"@) {
            Some(h) => if stored_hash_text(h) != spec_short_hash(c) {
                seq![shown_name(d) + ": Hash mismatch (stored vs computed)"@]
            } else {
                Seq::empty()
            },
            None => Seq::empty(),
        },
        None => Seq::empty(),
    }
}

/// The name a file is reported under.
fn shown_name_exec(d: &(Option<String>, Option<String>, Option<String>)) -> (s: String)
    ensures
        s@ == shown_name((opt_v(d.0), opt_v(d.1), opt_v(d.2))),
{
    match &d.0 {
        Some(n) => owned(n.as_str()),
        None => owned("unknown"),
    }
}

/// The view of an optional text.
pub open spec fn opt_v(o: Option<String>) -> Option<Seq<char>> {
    match o { Some(s) => Some(s@), None => None }
}

/// One message, or none.
fn one(m: String) -> (v: Vec<String>)
    ensures
        strs(v@) == seq![m@],
{
    let mut v: Vec<String> = Vec::new();
    v.push(m);
    assert(strs(v@) =~= seq![m@]);
    v
}

/// No message.
fn none() -> (v: Vec<String>)
    ensures
        strs(v@) == Seq::<Seq<char>>::empty(),
{
    let v: Vec<String> = Vec::new();
    assert(strs(v@) =~= Seq::<Seq<char>>::empty());
    v
}

/// The required fields a text lacks.
fn missing_exec(c: &str) -> (v: Vec<String>)
    ensures
        strs(v@) == missing_fields(c@, 6),
{
    let fields: [&str; 6] = ["id", "title", "parent", "breadcrumb", "type", "status"];
    let mut v: Vec<String> = Vec::new();
    let mut k: usize = 0;
    while k < 6
        invariant
            k <= 6,
            forall|j: int| 0 <= j < 6 ==> (#[trigger] fields@[j])@ == required_fields()[j],
            strs(v@) == missing_fields(c@, k as nat),
        decreases 6 - k,
    {
        if yaml_field(c, fields[k]).is_none() {
            let ghost v0 = strs(v@);
            v.push(owned(fields[k]));
            assert(strs(v@) =~= v0.push(required_fields()[k as int]));
        }
        k = k + 1;
    }
    v
}

/// The view of a held file.
pub open spec fn vdoc_view(d: (Option<String>, Option<String>, Option<String>)) -> VDoc {
    (opt_v(d.0), opt_v(d.1), opt_v(d.2))
}

fn yaml_errors_exec(d: &(Option<String>, Option<String>, Option<String>)) -> (v: Vec<String>)
    ensures
        strs(v@) == yaml_errors(vdoc_view(*d)),
{
    match (&d.0, &d.2) {
        (Some(name), Some(c)) => {
            if str_eq(name.as_str(), "0. Contexualizador.md") {
                return none();
            }
            let cc = chars_of(c.as_str());
            let dash = chars_of("---");
            proof {
                reveal_strlit("---");
            }
            if !starts_with(&cc, &dash) {
                return one(concat2(name.as_str(), ": Sin YAML frontmatter"));
            }
            let rest = slice_to_vec(&cc, 3, cc.len());
            assert(rest@ =~= c@.skip(3));
            if find(&rest, &dash).is_none() {
                return one(concat2(name.as_str(), ": YAML no cerrado (falta '---' final)"));
            }
            let missing = missing_exec(c.as_str());
            if missing.len() > 0 {
                let j = join(&missing, ", ");
                let m = concat2(concat2(name.as_str(), ": Falta YAML: ").as_str(), j.as_str());
                one(m)
            } else {
                none()
            }
        },
        _ => none(),
    }
}

fn breadcrumb_exec(d: &(Option<String>, Option<String>, Option<String>)) -> (v: Vec<String>)
    ensures
        strs(v@) == breadcrumb_warnings(vdoc_view(*d)),
{
    match &d.2 {
        Some(c) => {
            match (yaml_field(c.as_str(), "id"), yaml_field(c.as_str(), "breadcrumb")) {
                (Some(id), Some(bc)) => {
                    if find(&chars_of(bc.as_str()), &chars_of(id.as_str())).is_none() {
                        let mut m = shown_name_exec(d);
                        push_str(&mut m, ": Breadcrumb inconsistente (ID '");
                        push_str(&mut m, id.as_str());
                        push_str(&mut m, "' no en '");
                        push_str(&mut m, bc.as_str());
                        push_str(&mut m, "')");
                        one(m)
                    } else {
                        none()
                    }
                },
                _ => none(),
            }
        },
        None => none(),
    }
}

fn type_exec(d: &(Option<String>, Option<String>, Option<String>)) -> (v: Vec<String>)
    ensures
        strs(v@) == type_warnings(vdoc_view(*d)),
{
    match &d.2 {
        Some(c) => match yaml_field(c.as_str(), "type") {
            Some(t) => {
                let l = to_lowercase(t.as_str());
                let vt = valid_types_exec();
                let ok = among(&vt, l.as_str());
                proof {
                    if ok {
                        let k = choose|k: int| 0 <= k < vt@.len() && (#[trigger] vt@[k])@ == l@;
                        assert(valid_types()[k] == l@);
                    } else {
                        assert forall|k: int| 0 <= k < valid_types().len() implies valid_types()[k] != l@ by {
                            assert(vt@[k]@ == valid_types()[k]);
                        }
                    }
                }
                if !ok {
                    let mut m = shown_name_exec(d);
                    push_str(&mut m, ": Type no estándar: '");
                    push_str(&mut m, t.as_str());
                    push_str(&mut m, "'");
                    one(m)
                } else {
                    none()
                }
            },
            None => none(),
        },
        None => none(),
    }
}

fn status_exec(d: &(Option<String>, Option<String>, Option<String>)) -> (v: Vec<String>)
    ensures
        strs(v@) == status_warnings(vdoc_view(*d)),
{
    match &d.2 {
        Some(c) => match yaml_field(c.as_str(), "status") {
            Some(t) => {
                let l = to_lowercase(t.as_str());
                let vs = valid_statuses_exec();
                let ok = among(&vs, l.as_str());
                proof {
                    if ok {
                        let k = choose|k: int| 0 <= k < vs@.len() && (#[trigger] vs@[k])@ == l@;
                        assert(valid_statuses()[k] == l@);
                    } else {
                        assert forall|k: int| 0 <= k < valid_statuses().len() implies valid_statuses()[k] != l@ by {
                            assert(vs@[k]@ == valid_statuses()[k]);
                        }
                    }
                }
                if !ok {
                    let mut m = shown_name_exec(d);
                    push_str(&mut m, ": Status no estándar: '");
                    push_str(&mut m, t.as_str());
                    push_str(&mut m, "'");
                    one(m)
                } else {
                    none()
                }
            },
            None => none(),
        },
        None => none(),
    }
}

fn fence_exec(d: &(Option<String>, Option<String>, Option<String>)) -> (v: Vec<String>)
    ensures
        strs(v@) == fence_warnings(vdoc_view(*d)),
{
    match &d.2 {
        Some(c) => {
            let f = chars_of("```");
            proof {
                reveal_strlit("```");
            }
            let n = count_matches(&chars_of(c.as_str()), &f);
            if n % 2 != 0 {
                let mut m = shown_name_exec(d);
                push_str(&mut m, ": Code block no cerrado (");
                push_str(&mut m, decimal(n).as_str());
                push_str(&mut m, " delimitadores)");
                one(m)
            } else {
                none()
            }
        },
        None => none(),
    }
}

fn content_exec(d: &(Option<String>, Option<String>, Option<String>)) -> (v: Vec<String>)
    ensures
        strs(v@) == content_warnings(vdoc_view(*d)),
{
    match &d.2 {
        Some(c) => {
            let w = body_words(&chars_of(c.as_str()));
            if w < 50 {
                let mut m = shown_name_exec(d);
                push_str(&mut m, ": Contenido mínimo (");
                push_str(&mut m, decimal(w).as_str());
                push_str(&mut m, " palabras, mínimo 50)");
                one(m)
            } else {
                none()
            }
        },
        None => none(),
    }
}

fn placeholder_exec(d: &(Option<String>, Option<String>, Option<String>)) -> (v: Vec<String>)
    ensures
        strs(v@) == placeholder_warnings(vdoc_view(*d)),
{
    match &d.2 {
        Some(c) => {
            let pats: [&str; 13] = ["TBD", "TODO", "FIXME", "XXX", "PENDING", "[PENDIENTE]", "[TODO]", "[TBD]",
                "Lorem ipsum", "placeholder", "PLACEHOLDER", "Contenido pendiente", "Por definir"];
            let cc = chars_of(c.as_str());
            let mut k: usize = 0;
            while k < 13
                invariant
                    k <= 13,
                    cc@ == c@,
                    vdoc_view(*d).2 == Some(c@),
                    forall|j: int| 0 <= j < 13 ==> (#[trigger] pats@[j])@ == placeholder_patterns()[j],
                    first_placeholder(c@, k as nat) is None,
                decreases 13 - k,
            {
                if find(&cc, &chars_of(pats[k])).is_some() {
                    assert(first_placeholder(c@, (k + 1) as nat) == Some(placeholder_patterns()[k as int]));
                    let mut m = shown_name_exec(d);
                    push_str(&mut m, ": Placeholder detectado: '");
                    push_str(&mut m, pats[k]);
                    push_str(&mut m, "'");
                    proof {
                        lemma_first_placeholder_stays(c@, (k + 1) as nat, 13);
                        assert(first_placeholder(c@, 13) == Some(placeholder_patterns()[k as int]));
                        assert(pats@[k as int]@ == placeholder_patterns()[k as int]);
                        assert(m@ == shown_name(vdoc_view(*d)) + ": Placeholder detectado: '"@ + placeholder_patterns()[k as int] + "'"@);
                    }
                    return one(m);
                }
                k = k + 1;
            }
            none()
        },
        None => none(),
    }
}

proof fn lemma_first_placeholder_stays(c: Seq<char>, k: nat, m: nat)
    requires
        k <= m <= 13,
        first_placeholder(c, k) is Some,
    ensures
        first_placeholder(c, m) == first_placeholder(c, k),
    decreases m - k,
{
    if k < m {
        lemma_first_placeholder_stays(c, k, (m - 1) as nat);
    }
}

/// `s` without double quotes at either end.
fn strip_dquotes_exec(s: &[char]) -> (r: Vec<char>)
    ensures
        r@ == strip_dquotes(s@),
{
    let mut a: usize = 0;
    let mut b: usize = s.len();
    assert(s@.subrange(0, s@.len() as int) =~= s@);
    while a < b && s[a] == '"'
        invariant
            a <= b <= s@.len(),
            b == s@.len(),
            strip_dquotes(s@) == strip_dquotes(s@.subrange(a as int, b as int)),
        decreases b - a,
    {
        assert(s@.subrange(a as int, b as int).drop_first() =~= s@.subrange(a + 1, b as int));
        a = a + 1;
    }
    while a < b && s[b - 1] == '"'
        invariant
            a <= b <= s@.len(),
            a == b || s@[a as int] != '"',
            strip_dquotes(s@) == strip_dquotes(s@.subrange(a as int, b as int)),
        decreases b - a,
    {
        assert(s@.subrange(a as int, b as int).drop_last() =~= s@.subrange(a as int, b - 1));
        a = a;
        b = b - 1;
    }
    slice_to_vec(s, a, b)
}

fn hash_exec(d: &(Option<String>, Option<String>, Option<String>)) -> (v: Vec<String>)
    ensures
        strs(v@) == hash_warnings(vdoc_view(*d)),
{
    match &d.2 {
        Some(c) => match yaml_field(c.as_str(), "content_hash") {
            Some(h) => {
                let stored = strip_dquotes_exec(&trim(&chars_of(h.as_str())));
                let computed = short_content_hash(c.as_str());
                if !str_eq(string_of(&stored).as_str(), computed.as_str()) {
                    let mut m = shown_name_exec(d);
                    push_str(&mut m, ": Hash mismatch (stored vs computed)");
                    one(m)
                } else {
                    none()
                }
            },
            None => none(),
        },
        None => none(),
    }
}

/// The diagram kinds a Mermaid block may declare.
pub open spec fn diagram_names() -> Seq<Seq<char>> {
    seq!["graph"@, "flowchart"@, "sequenceDiagram"@, "classDiagram"@, "stateDiagram"@, "pie"@, "gantt"@, "erDiagram"@]
}

/// A Mermaid block names a diagram kind.
pub open spec fn has_diagram_type(m: Seq<char>) -> bool {
    exists|k: int| 0 <= k < 8 && spec_contains(m, #[trigger] diagram_names()[k])
}

/// Warnings for the Mermaid blocks (captures) without a diagram kind.
pub open spec fn mermaid_msgs(name: Seq<char>, cs: Seq<Seq<Option<Seq<char>>>>) -> Seq<Seq<char>>
    decreases cs.len(),
{
    if cs.len() == 0 {
        Seq::empty()
    } else {
        let p = mermaid_msgs(name, cs.drop_last());
        let m = match cap_group(cs.last(), 1) { Some(x) => x, None => Seq::empty() };
        if !has_diagram_type(m) && spec_trim(m).len() > 0 {
            p.push(name + ": Mermaid sin tipo de diagrama válido"@)
        } else {
            p
        }
    }
}

/// Warnings of the Mermaid phase for one file.
pub open spec fn mermaid_warnings(d: VDoc) -> Seq<Seq<char>> {
    match d.2 {
        Some(c) => mermaid_msgs(shown_name(d), spec_captures_all(RE_MERMAID@, c)),
        None => Seq::empty(),
    }
}

/// A trimmed line that is a table row.
pub open spec fn is_table_row(t: Seq<char>) -> bool {
    spec_starts_with(t, "|"@) && spec_ends_with(t, "|"@)
}

/// A trimmed table row that separates the header.
pub open spec fn is_separator_row(t: Seq<char>) -> bool {
    spec_contains(t, "---"@) || spec_contains(t, ":--"@) || spec_contains(t, "--:"@) || spec_contains(t, ":-:"@)
}

/// The table scan: (inside a table, its first line, separator seen,
/// warnings for tables that ended without a separator).
pub open spec fn table_scan(name: Seq<char>, ls: Seq<Seq<char>>) -> (bool, nat, bool, Seq<Seq<char>>)
    decreases ls.len(),
{
    if ls.len() == 0 {
        (false, 0, false, Seq::empty())
    } else {
        let p = table_scan(name, ls.drop_last());
        let i = (ls.len() - 1) as nat;
        let t = spec_trim(ls.last());
        if is_table_row(t) {
            let start = if p.0 { p.1 } else { i };
            let sep = if p.0 { p.2 } else { false };
            (true, start, sep || is_separator_row(t), p.3)
        } else if p.0 {
            (false, p.1, p.2, if !p.2 { p.3.push(name + ": Tabla en línea "@ + spec_decimal(p.1 + 1) + " sin separador de header"@) } else { p.3 })
        } else {
            p
        }
    }
}

/// Warnings of the table phase for one file.
pub open spec fn table_warnings(d: VDoc) -> Seq<Seq<char>> {
    match d.2 {
        Some(c) => table_scan(shown_name(d), spec_lines(c)).3,
        None => Seq::empty(),
    }
}

/// The number of top-level headings (`# ` but not `## `, trimmed).
pub open spec fn h1_count(ls: Seq<Seq<char>>) -> nat
    decreases ls.len(),
{
    if ls.len() == 0 {
        0
    } else {
        let t = spec_trim(ls.last());
        h1_count(ls.drop_last()) + if spec_starts_with(t, "# "@) && !spec_starts_with(t, "## "@) { 1nat } else { 0nat }
    }
}

/// The heading scan: (last level, warning for the first skipped level).
/// Levels are counted modulo 256.
pub open spec fn heading_scan(name: Seq<char>, ls: Seq<Seq<char>>) -> (nat, Option<Seq<char>>)
    decreases ls.len(),
{
    if ls.len() == 0 {
        (0, None)
    } else {
        let p = heading_scan(name, ls.drop_last());
        let t = spec_trim(ls.last());
        if p.1 is Some || !spec_starts_with(t, "#"@) || spec_starts_with(t, "```"@) {
            p
        } else {
            let level = hashes(t) % 256;
            if p.0 > 0 && level > p.0 + 1 {
                (p.0, Some(name + ": Salto de heading H"@ + spec_decimal(p.0) + " a H"@ + spec_decimal(level)))
            } else {
                (level, None)
            }
        }
    }
}

/// Warnings of the heading phase for one file: several top-level
/// headings, then the first skipped level.
pub open spec fn heading_warnings(d: VDoc) -> Seq<Seq<char>> {
    match d.2 {
        Some(c) => {
            let ls = spec_lines(c);
            let n = h1_count(ls);
            let a = if n > 1 { seq![shown_name(d) + ": Múltiples H1 ("@ + spec_decimal(n) + " encontrados)"@] } else { Seq::empty() };
            let b = match heading_scan(shown_name(d), ls).1 { Some(m) => seq![m], None => Seq::empty() };
            a + b
        },
        None => Seq::empty(),
    }
}

fn mermaid_exec(d: &(Option<String>, Option<String>, Option<String>)) -> (v: Vec<String>)
    ensures
        strs(v@) == mermaid_warnings(vdoc_view(*d)),
{
    match &d.2 {
        Some(c) => {
            let name = shown_name_exec(d);
            let caps = captures_all(RE_MERMAID, c.as_str());
            let ghost cv = caps@.map_values(|x: Vec<Option<String>>| opt_strs(x@));
            let kinds: [&str; 8] = ["graph", "flowchart", "sequenceDiagram", "classDiagram", "stateDiagram", "pie", "gantt", "erDiagram"];
            let mut v: Vec<String> = Vec::new();
            let mut i: usize = 0;
            assert(cv.subrange(0, 0) =~= Seq::<Seq<Option<Seq<char>>>>::empty());
            while i < caps.len()
                invariant
                    i <= caps@.len(),
                    cv == caps@.map_values(|x: Vec<Option<String>>| opt_strs(x@)),
                    forall|j: int| 0 <= j < 8 ==> (#[trigger] kinds@[j])@ == diagram_names()[j],
                    strs(v@) == mermaid_msgs(name@, cv.subrange(0, i as int)),
                decreases caps@.len() - i,
            {
                let ghost sub = cv.subrange(0, i + 1);
                assert(sub.drop_last() =~= cv.subrange(0, i as int));
                assert(sub.last() == opt_strs(caps@[i as int]@));
                let m: String = match cap_at(&caps[i], 1) {
                    Some(x) => x,
                    None => String::new(),
                };
                let mc = chars_of(m.as_str());
                let mut found = false;
                let mut k: usize = 0;
                while k < 8
                    invariant
                        k <= 8,
                        mc@ == m@,
                        forall|j: int| 0 <= j < 8 ==> (#[trigger] kinds@[j])@ == diagram_names()[j],
                        found == exists|j: int| 0 <= j < k && spec_contains(m@, #[trigger] diagram_names()[j]),
                    decreases 8 - k,
                {
                    if find(&mc, &chars_of(kinds[k])).is_some() {
                        found = true;
                    }
                    k = k + 1;
                }
                if !found && trim(&mc).len() > 0 {
                    let ghost v0 = strs(v@);
                    v.push(concat2(name.as_str(), ": Mermaid sin tipo de diagrama válido"));
                    assert(strs(v@) =~= v0.push(name@ + ": Mermaid sin tipo de diagrama válido"@));
                }
                i = i + 1;
            }
            assert(cv.subrange(0, caps@.len() as int) =~= cv);
            v
        },
        None => none(),
    }
}

fn table_exec(d: &(Option<String>, Option<String>, Option<String>)) -> (v: Vec<String>)
    ensures
        strs(v@) == table_warnings(vdoc_view(*d)),
{
    match &d.2 {
        Some(c) => {
            let name = shown_name_exec(d);
            let ls = lines(&chars_of(c.as_str()));
            let ghost lv = views(ls@);
            let bar = chars_of("|");
            let mut in_table = false;
            let mut start: usize = 0;
            let mut sep = false;
            let mut v: Vec<String> = Vec::new();
            let mut i: usize = 0;
            assert(lv.subrange(0, 0) =~= Seq::<Seq<char>>::empty());
            while i < ls.len()
                invariant
                    i <= ls@.len(),
                    lv == views(ls@),
                    bar@ == "|"@,
                    table_scan(name@, lv.subrange(0, i as int)) == (in_table, start as nat, sep, strs(v@)),
                    start < i || (i == 0 && start == 0),
                decreases ls@.len() - i,
            {
                let ghost sub = lv.subrange(0, i + 1);
                assert(sub.drop_last() =~= lv.subrange(0, i as int));
                assert(sub.last() == ls@[i as int]@);
                let t = trim(&ls[i]);
                if starts_with(&t, &bar) && ends_with(&t, &bar) {
                    if !in_table {
                        in_table = true;
                        start = i;
                        sep = false;
                    }
                    let is_sep = find(&t, &chars_of("---")).is_some() || find(&t, &chars_of(":--")).is_some()
                        || find(&t, &chars_of("--:")).is_some() || find(&t, &chars_of(":-:")).is_some();
                    if is_sep {
                        sep = true;
                    }
                } else if in_table {
                    if !sep {
                        let mut m = concat2(name.as_str(), ": Tabla en línea ");
                        push_str(&mut m, decimal(start + 1).as_str());
                        push_str(&mut m, " sin separador de header");
                        let ghost v0 = strs(v@);
                        v.push(m);
                        assert(strs(v@) =~= v0.push(name@ + ": Tabla en línea "@ + spec_decimal((start + 1) as nat) + " sin separador de header"@));
                    }
                    in_table = false;
                }
                i = i + 1;
            }
            assert(lv.subrange(0, ls@.len() as int) =~= lv);
            v
        },
        None => none(),
    }
}

fn heading_exec(d: &(Option<String>, Option<String>, Option<String>)) -> (v: Vec<String>)
    ensures
        strs(v@) == heading_warnings(vdoc_view(*d)),
{
    match &d.2 {
        Some(c) => {
            let name = shown_name_exec(d);
            let ls = lines(&chars_of(c.as_str()));
            let ghost lv = views(ls@);
            let h1 = chars_of("# ");
            let h2 = chars_of("## ");
            let hash = chars_of("#");
            let fence = chars_of("```");
            let mut n: usize = 0;
            let mut last: usize = 0;
            let mut msg: Option<String> = None;
            let mut i: usize = 0;
            assert(lv.subrange(0, 0) =~= Seq::<Seq<char>>::empty());
            while i < ls.len()
                invariant
                    i <= ls@.len(),
                    lv == views(ls@),
                    h1@ == "# "@,
                    h2@ == "## "@,
                    hash@ == "#"@,
                    fence@ == "```"@,
                    n == h1_count(lv.subrange(0, i as int)),
                    n <= i,
                    last < 256,
                    heading_scan(name@, lv.subrange(0, i as int)) == (last as nat, match msg { Some(m) => Some(m@), None => None }),
                decreases ls@.len() - i,
            {
                let ghost sub = lv.subrange(0, i + 1);
                assert(sub.drop_last() =~= lv.subrange(0, i as int));
                assert(sub.last() == ls@[i as int]@);
                let t = trim(&ls[i]);
                if starts_with(&t, &h1) && !starts_with(&t, &h2) {
                    n = n + 1;
                }
                if msg.is_none() && starts_with(&t, &hash) && !starts_with(&t, &fence) {
                    let level = crate::commands::lint::count_hashes(&t) % 256;
                    if last > 0 && level > last + 1 {
                        let mut m = concat2(name.as_str(), ": Salto de heading H");
                        push_str(&mut m, decimal(last).as_str());
                        push_str(&mut m, " a H");
                        push_str(&mut m, decimal(level).as_str());
                        msg = Some(m);
                    } else {
                        last = level;
                    }
                }
                i = i + 1;
            }
            assert(lv.subrange(0, ls@.len() as int) =~= lv);
            let mut v: Vec<String> = Vec::new();
            if n > 1 {
                let mut m = concat2(name.as_str(), ": Múltiples H1 (");
                push_str(&mut m, decimal(n).as_str());
                push_str(&mut m, " encontrados)");
                v.push(m);
            }
            let ghost a = strs(v@);
            match msg {
                Some(m) => {
                    v.push(m);
                    assert(strs(v@) =~= a.push(strs(v@).last()));
                },
                None => {},
            }
            proof {
                let hv = heading_warnings(vdoc_view(*d));
                assert(strs(v@) =~= hv);
            }
            v
        },
        None => none(),
    }
}

// ─────────────────────────────────────────────────────────────────────────
// Phases across documents
// ─────────────────────────────────────────────────────────────────────────

/// The ids of the readable files.
pub open spec fn doc_ids(ds: Seq<VDoc>) -> Seq<Seq<char>>
    decreases ds.len(),
{
    if ds.len() == 0 {
        Seq::empty()
    } else {
        let p = doc_ids(ds.drop_last());
        match ds.last().2 {
            Some(c) => match spec_yaml_field(c, "id"@) { Some(id) => p.push(id), None => p },
            None => p,
        }
    }
}

/// (key, file name) pairs: the id (or, with `titles`, the lower-cased
/// title) of each readable file that has one.
pub open spec fn key_pairs(ds: Seq<VDoc>, titles: bool) -> Seq<(Seq<char>, Seq<char>)>
    decreases ds.len(),
{
    if ds.len() == 0 {
        Seq::empty()
    } else {
        let p = key_pairs(ds.drop_last(), titles);
        match ds.last().2 {
            Some(c) => {
                let k = if titles {
                    match spec_yaml_field(c, "title"@) { Some(t) => Some(spec_to_lowercase(t)), None => None }
                } else {
                    spec_yaml_field(c, "id"@)
                };
                match k { Some(key) => p.push((key, shown_name(ds.last()))), None => p }
            },
            None => p,
        }
    }
}

/// The pairs grouped by key, keys in order of first appearance.
pub open spec fn group_pairs(ps: Seq<(Seq<char>, Seq<char>)>) -> Seq<KidsEntry>
    decreases ps.len(),
{
    if ps.len() == 0 { Seq::empty() } else { kids_add(group_pairs(ps.drop_last()), ps.last().0, ps.last().1) }
}

/// The messages for the groups with more than one file.
pub open spec fn duplicate_msgs(gs: Seq<KidsEntry>, titles: bool) -> Seq<Seq<char>>
    decreases gs.len(),
{
    if gs.len() == 0 {
        Seq::empty()
    } else {
        let p = duplicate_msgs(gs.drop_last(), titles);
        let g = gs.last();
        if g.1.len() > 1 {
            p.push(if titles {
                "Título duplicado '"@ + g.0 + "' en: "@ + spec_join(g.1, ", "@)
            } else {
                "ID DUPLICADO: '"@ + g.0 + "' en "@ + spec_join(g.1, ", "@)
            })
        } else {
            p
        }
    }
}

/// Errors of the parent phase for one file: a parent (other than `0`)
/// that is no id.
pub open spec fn parent_errors(d: VDoc, ids: Seq<Seq<char>>) -> Seq<Seq<char>> {
    match d.2 {
        Some(c) => match spec_yaml_field(c, "parent"@) {
            Some(p) => if p != "0"@ && p.len() > 0 && !ids.contains(p) {
                seq![shown_name(d) + ": Parent '"@ + p + "' no existe"@]
            } else {
                Seq::empty()
            },
            None => Seq::empty(),
        },
        None => Seq::empty(),
    }
}

/// The lower-cased wiki-link targets (as written) of the readable files.
pub open spec fn all_refs(ds: Seq<VDoc>) -> Seq<Seq<char>>
    decreases ds.len(),
{
    if ds.len() == 0 {
        Seq::empty()
    } else {
        let p = all_refs(ds.drop_last());
        match ds.last().2 {
            Some(c) => p + caps_refs(spec_captures_all(RE_WIKI_LINK_WITH_ALIAS@, c)),
            None => p,
        }
    }
}

/// The lower-cased first groups of captures.
pub open spec fn caps_refs(cs: Seq<Seq<Option<Seq<char>>>>) -> Seq<Seq<char>>
    decreases cs.len(),
{
    if cs.len() == 0 {
        Seq::empty()
    } else {
        let p = caps_refs(cs.drop_last());
        match cap_group(cs.last(), 1) { Some(t) => p.push(spec_to_lowercase(t)), None => p }
    }
}

/// Warning of the orphan phase for one file: no parent other than `0`,
/// and no link to its stem (the context files excepted).
pub open spec fn orphan_warnings(d: VDoc, refs: Seq<Seq<char>>) -> Seq<Seq<char>> {
    if spec_starts_with(shown_name(d), "0."@) {
        Seq::empty()
    } else {
        match d.2 {
            Some(c) => {
                let has_parent = match spec_yaml_field(c, "parent"@) { Some(p) => p != "0"@ && p.len() > 0, None => false };
                let stem = match d.1 { Some(s) => s, None => Seq::empty() };
                if !has_parent && !refs.contains(spec_to_lowercase(stem)) {
                    seq!["HUÉRFANO: "@ + shown_name(d)]
                } else {
                    Seq::empty()
                }
            },
            None => Seq::empty(),
        }
    }
}

/// The parents (other than `0`) named by the readable files that have an id.
pub open spec fn child_parents(ds: Seq<VDoc>) -> Seq<Seq<char>>
    decreases ds.len(),
{
    if ds.len() == 0 {
        Seq::empty()
    } else {
        let p = child_parents(ds.drop_last());
        match ds.last().2 {
            Some(c) => match (spec_yaml_field(c, "id"@), spec_yaml_field(c, "parent"@)) {
                (Some(_), Some(pa)) => if pa != "0"@ && pa.len() > 0 { p.push(pa) } else { p },
                _ => p,
            },
            None => p,
        }
    }
}

/// How often `x` occurs.
pub open spec fn occurrences(s: Seq<Seq<char>>, x: Seq<char>) -> nat
    decreases s.len(),
{
    if s.len() == 0 { 0 } else { occurrences(s.drop_last(), x) + if s.last() == x { 1nat } else { 0nat } }
}

/// Warning of the child count phase for one file: a stored count that
/// differs from the number of files naming it as parent.
pub open spec fn children_warnings(d: VDoc, parents: Seq<Seq<char>>) -> Seq<Seq<char>> {
    match d.2 {
        Some(c) => match spec_yaml_field(c, "children_count"@) {
            Some(cc) => match spec_parse_unsigned(cc, usize::MAX as nat) {
                Some(expected) => match spec_yaml_field(c, "id"@) {
                    Some(id) => {
                        let actual = occurrences(parents, id);
                        if actual != expected {
                            seq![shown_name(d) + ": children_count="@ + spec_decimal(expected) + " vs actual="@ + spec_decimal(actual)]
                        } else {
                            Seq::empty()
                        }
                    },
                    None => Seq::empty(),
                },
                None => Seq::empty(),
            },
            None => Seq::empty(),
        },
        None => Seq::empty(),
    }
}

/// The readable files' ids.
fn doc_ids_exec(ds: &Vec<(Option<String>, Option<String>, Option<String>)>) -> (v: Vec<String>)
    ensures
        strs(v@) == doc_ids(ds@.map_values(|d: (Option<String>, Option<String>, Option<String>)| vdoc_view(d))),
{
    let ghost dv = ds@.map_values(|d: (Option<String>, Option<String>, Option<String>)| vdoc_view(d));
    let mut v: Vec<String> = Vec::new();
    let mut i: usize = 0;
    assert(dv.subrange(0, 0) =~= Seq::<VDoc>::empty());
    while i < ds.len()
        invariant
            i <= ds@.len(),
            dv == ds@.map_values(|d: (Option<String>, Option<String>, Option<String>)| vdoc_view(d)),
            strs(v@) == doc_ids(dv.subrange(0, i as int)),
        decreases ds@.len() - i,
    {
        let ghost sub = dv.subrange(0, i + 1);
        assert(sub.drop_last() =~= dv.subrange(0, i as int));
        assert(sub.last() == vdoc_view(ds@[i as int]));
        match &ds[i].2 {
            Some(c) => match yaml_field(c.as_str(), "id") {
                Some(id) => {
                    let ghost v0 = strs(v@);
                    v.push(id);
                    assert(strs(v@) =~= v0.push(v@.last()@));
                },
                None => {},
            },
            None => {},
        }
        i = i + 1;
    }
    assert(dv.subrange(0, ds@.len() as int) =~= dv);
    v
}

/// Whether `x` is among the texts.
fn contains_text(v: &Vec<String>, x: &str) -> (r: bool)
    ensures
        r == strs(v@).contains(x@),
{
    let mut i: usize = 0;
    while i < v.len()
        invariant
            i <= v@.len(),
            forall|k: int| 0 <= k < i ==> strs(v@)[k] != x@,
        decreases v@.len() - i,
    {
        if str_eq(v[i].as_str(), x) {
            assert(strs(v@)[i as int] == x@);
            return true;
        }
        i = i + 1;
    }
    false
}

/// How often `x` occurs among the texts.
fn count_text(v: &Vec<String>, x: &str) -> (n: usize)
    ensures
        n == occurrences(strs(v@), x@),
{
    let ghost sv = strs(v@);
    let mut n: usize = 0;
    let mut i: usize = 0;
    assert(sv.subrange(0, 0) =~= Seq::<Seq<char>>::empty());
    while i < v.len()
        invariant
            i <= v@.len(),
            sv == strs(v@),
            n == occurrences(sv.subrange(0, i as int), x@),
            n <= i,
        decreases v@.len() - i,
    {
        assert(sv.subrange(0, i + 1).drop_last() =~= sv.subrange(0, i as int));
        if str_eq(v[i].as_str(), x) {
            n = n + 1;
        }
        i = i + 1;
    }
    assert(sv.subrange(0, v@.len() as int) =~= sv);
    n
}

fn parent_exec(d: &(Option<String>, Option<String>, Option<String>), ids: &Vec<String>) -> (v: Vec<String>)
    ensures
        strs(v@) == parent_errors(vdoc_view(*d), strs(ids@)),
{
    match &d.2 {
        Some(c) => match yaml_field(c.as_str(), "parent") {
            Some(p) => {
                if !str_eq(p.as_str(), "0") && !p.as_str().is_empty() && !contains_text(ids, p.as_str()) {
                    let mut m = shown_name_exec(d);
                    push_str(&mut m, ": Parent '");
                    push_str(&mut m, p.as_str());
                    push_str(&mut m, "' no existe");
                    one(m)
                } else {
                    none()
                }
            },
            None => none(),
        },
        None => none(),
    }
}

fn orphan_exec(d: &(Option<String>, Option<String>, Option<String>), refs: &Vec<String>) -> (v: Vec<String>)
    ensures
        strs(v@) == orphan_warnings(vdoc_view(*d), strs(refs@)),
{
    let name = shown_name_exec(d);
    if starts_with(&chars_of(name.as_str()), &chars_of("0.")) {
        return none();
    }
    match &d.2 {
        Some(c) => {
            let has_parent = match yaml_field(c.as_str(), "parent") {
                Some(p) => !str_eq(p.as_str(), "0") && !p.as_str().is_empty(),
                None => false,
            };
            let stem: String = match &d.1 {
                Some(s) => owned(s.as_str()),
                None => String::new(),
            };
            let l = to_lowercase(stem.as_str());
            if !has_parent && !contains_text(refs, l.as_str()) {
                one(concat2("HUÉRFANO: ", name.as_str()))
            } else {
                none()
            }
        },
        None => none(),
    }
}

fn children_exec(d: &(Option<String>, Option<String>, Option<String>), parents: &Vec<String>) -> (v: Vec<String>)
    ensures
        strs(v@) == children_warnings(vdoc_view(*d), strs(parents@)),
{
    match &d.2 {
        Some(c) => match yaml_field(c.as_str(), "children_count") {
            Some(cc) => match parse_usize(cc.as_str()) {
                Some(expected) => match yaml_field(c.as_str(), "id") {
                    Some(id) => {
                        let actual = count_text(parents, id.as_str());
                        if actual != expected {
                            let mut m = shown_name_exec(d);
                            push_str(&mut m, ": children_count=");
                            push_str(&mut m, decimal(expected).as_str());
                            push_str(&mut m, " vs actual=");
                            push_str(&mut m, decimal(actual).as_str());
                            one(m)
                        } else {
                            none()
                        }
                    },
                    None => none(),
                },
                None => none(),
            },
            None => none(),
        },
        None => none(),
    }
}

/// The views of held files.
pub open spec fn vds(ds: Seq<(Option<String>, Option<String>, Option<String>)>) -> Seq<VDoc> {
    ds.map_values(|d: (Option<String>, Option<String>, Option<String>)| vdoc_view(d))
}

/// The lower-cased link targets of all readable files.
fn all_refs_exec(ds: &Vec<(Option<String>, Option<String>, Option<String>)>) -> (v: Vec<String>)
    ensures
        strs(v@) == all_refs(vds(ds@)),
{
    let ghost dv = vds(ds@);
    let mut v: Vec<String> = Vec::new();
    let mut i: usize = 0;
    assert(dv.subrange(0, 0) =~= Seq::<VDoc>::empty());
    while i < ds.len()
        invariant
            i <= ds@.len(),
            dv == vds(ds@),
            strs(v@) == all_refs(dv.subrange(0, i as int)),
        decreases ds@.len() - i,
    {
        let ghost sub = dv.subrange(0, i + 1);
        assert(sub.drop_last() =~= dv.subrange(0, i as int));
        assert(sub.last() == vdoc_view(ds@[i as int]));
        match &ds[i].2 {
            Some(c) => {
                let caps = captures_all(RE_WIKI_LINK_WITH_ALIAS, c.as_str());
                let ghost cv = caps@.map_values(|x: Vec<Option<String>>| opt_strs(x@));
                let ghost base = strs(v@);
                let mut j: usize = 0;
                assert(cv.subrange(0, 0) =~= Seq::<Seq<Option<Seq<char>>>>::empty());
                assert(base + caps_refs(cv.subrange(0, 0)) =~= base);
                while j < caps.len()
                    invariant
                        j <= caps@.len(),
                        cv == caps@.map_values(|x: Vec<Option<String>>| opt_strs(x@)),
                        strs(v@) == base + caps_refs(cv.subrange(0, j as int)),
                    decreases caps@.len() - j,
                {
                    let ghost csub = cv.subrange(0, j + 1);
                    assert(csub.drop_last() =~= cv.subrange(0, j as int));
                    assert(csub.last() == opt_strs(caps@[j as int]@));
                    match cap_at(&caps[j], 1) {
                        Some(t) => {
                            let ghost v0 = strs(v@);
                            v.push(to_lowercase(t.as_str()));
                            assert(strs(v@) =~= v0.push(spec_to_lowercase(t@)));
                        },
                        None => {},
                    }
                    j = j + 1;
                }
                assert(cv.subrange(0, caps@.len() as int) =~= cv);
            },
            None => {},
        }
        i = i + 1;
    }
    assert(dv.subrange(0, ds@.len() as int) =~= dv);
    v
}

/// The parents named by the readable files that have an id.
fn child_parents_exec(ds: &Vec<(Option<String>, Option<String>, Option<String>)>) -> (v: Vec<String>)
    ensures
        strs(v@) == child_parents(vds(ds@)),
{
    let ghost dv = vds(ds@);
    let mut v: Vec<String> = Vec::new();
    let mut i: usize = 0;
    assert(dv.subrange(0, 0) =~= Seq::<VDoc>::empty());
    while i < ds.len()
        invariant
            i <= ds@.len(),
            dv == vds(ds@),
            strs(v@) == child_parents(dv.subrange(0, i as int)),
        decreases ds@.len() - i,
    {
        let ghost sub = dv.subrange(0, i + 1);
        assert(sub.drop_last() =~= dv.subrange(0, i as int));
        assert(sub.last() == vdoc_view(ds@[i as int]));
        match &ds[i].2 {
            Some(c) => {
                match (yaml_field(c.as_str(), "id"), yaml_field(c.as_str(), "parent")) {
                    (Some(_), Some(pa)) => {
                        if !str_eq(pa.as_str(), "0") && !pa.as_str().is_empty() {
                            let ghost v0 = strs(v@);
                            v.push(pa);
                            assert(strs(v@) =~= v0.push(v@.last()@));
                        }
                    },
                    _ => {},
                }
            },
            None => {},
        }
        i = i + 1;
    }
    assert(dv.subrange(0, ds@.len() as int) =~= dv);
    v
}

/// The files grouped by id (or by lower-cased title).
fn groups_exec(ds: &Vec<(Option<String>, Option<String>, Option<String>)>, titles: bool) -> (g: Vec<(String, Vec<String>)>)
    ensures
        kids_view(g@) == group_pairs(key_pairs(vds(ds@), titles)),
{
    let ghost dv = vds(ds@);
    let mut g: Vec<(String, Vec<String>)> = Vec::new();
    let mut i: usize = 0;
    assert(dv.subrange(0, 0) =~= Seq::<VDoc>::empty());
    assert(kids_view(g@) =~= Seq::<KidsEntry>::empty());
    while i < ds.len()
        invariant
            i <= ds@.len(),
            dv == vds(ds@),
            kids_view(g@) == group_pairs(key_pairs(dv.subrange(0, i as int), titles)),
        decreases ds@.len() - i,
    {
        let ghost sub = dv.subrange(0, i + 1);
        assert(sub.drop_last() =~= dv.subrange(0, i as int));
        assert(sub.last() == vdoc_view(ds@[i as int]));
        match &ds[i].2 {
            Some(c) => {
                let key: Option<String> = if titles {
                    match yaml_field(c.as_str(), "title") {
                        Some(t) => Some(to_lowercase(t.as_str())),
                        None => None,
                    }
                } else {
                    yaml_field(c.as_str(), "id")
                };
                match key {
                    Some(k) => {
                        let name = shown_name_exec(&ds[i]);
                        let ghost kp = key_pairs(dv.subrange(0, i as int), titles);
                        assert(key_pairs(sub, titles) == kp.push((k@, name@)));
                        assert(key_pairs(sub, titles).drop_last() =~= kp);
                        kids_add_exec(&mut g, k, name);
                    },
                    None => {},
                }
            },
            None => {},
        }
        i = i + 1;
    }
    assert(dv.subrange(0, ds@.len() as int) =~= dv);
    g
}

/// The messages for groups with several files.
fn duplicate_exec(g: &Vec<(String, Vec<String>)>, titles: bool) -> (v: Vec<String>)
    ensures
        strs(v@) == duplicate_msgs(kids_view(g@), titles),
{
    let ghost gv = kids_view(g@);
    let mut v: Vec<String> = Vec::new();
    let mut i: usize = 0;
    assert(gv.subrange(0, 0) =~= Seq::<KidsEntry>::empty());
    while i < g.len()
        invariant
            i <= g@.len(),
            gv == kids_view(g@),
            strs(v@) == duplicate_msgs(gv.subrange(0, i as int), titles),
        decreases g@.len() - i,
    {
        let ghost sub = gv.subrange(0, i + 1);
        assert(sub.drop_last() =~= gv.subrange(0, i as int));
        assert(sub.last() == gv[i as int]);
        assert(gv[i as int].1.len() == g@[i as int].1@.len());
        if g[i].1.len() > 1 {
            let j = join(&g[i].1, ", ");
            let m = if titles {
                let mut m = concat2("Título duplicado '", g[i].0.as_str());
                push_str(&mut m, "' en: ");
                push_str(&mut m, j.as_str());
                m
            } else {
                let mut m = concat2("ID DUPLICADO: '", g[i].0.as_str());
                push_str(&mut m, "' en ");
                push_str(&mut m, j.as_str());
                m
            };
            let ghost v0 = strs(v@);
            v.push(m);
            assert(strs(v@) =~= v0.push(m@));
        }
        i = i + 1;
    }
    assert(gv.subrange(0, g@.len() as int) =~= gv);
    v
}

// ─────────────────────────────────────────────────────────────────────────
// Phases that need the file system
// ─────────────────────────────────────────────────────────────────────────

/// What the file system tells of the files, one entry per file (a missing
/// entry tells nothing): modification times and front matter dates in
/// seconds since the epoch, and whether each link, embed and image target
/// exists (in the order the targets are listed).
#[derive(Debug, Clone)]
pub struct VerifyFacts {
    pub mtimes: Vec<Option<u64>>,
    pub yaml_dates: Vec<Option<u64>>,
    pub links_exist: Vec<Vec<bool>>,
    pub embeds_exist: Vec<Vec<bool>>,
    pub images_exist: Vec<Vec<bool>>,
}

/// The `i`-th optional number, if given.
pub open spec fn fact_at(v: Seq<Option<u64>>, i: int) -> Option<u64> {
    if 0 <= i < v.len() { v[i] } else { None }
}

/// Whether target `j` of file `i` exists (assumed when not told).
pub open spec fn exists_at(v: Seq<Vec<bool>>, i: int, j: int) -> bool {
    if 0 <= i < v.len() && 0 <= j < v[i]@.len() { v[i]@[j] } else { true }
}

/// The wiki links of a text to check, as (link, file it names): trimmed,
/// trailing backslashes removed, without empty, web, anchor and table
/// header links; the file is the link up to its anchor.
pub open spec fn link_targets_spec(cs: Seq<Seq<Option<Seq<char>>>>) -> Seq<(Seq<char>, Seq<char>)>
    decreases cs.len(),
{
    if cs.len() == 0 {
        Seq::empty()
    } else {
        let p = link_targets_spec(cs.drop_last());
        let raw = match cap_group(cs.last(), 1) { Some(x) => x, None => Seq::empty() };
        let l = trim_backslashes(spec_trim(raw));
        if l.len() == 0 || spec_starts_with(l, "http"@) || spec_starts_with(l, "#"@)
            || spec_contains(l, "Métrica"@) || spec_contains(l, "Valor"@) {
            p
        } else {
            p.push((l, if spec_contains(l, "#"@) { spec_split(l, '#')[0] } else { l }))
        }
    }
}

/// The embeds of a text to check: trimmed, trailing backslashes removed,
/// non-empty.
pub open spec fn embed_targets_spec(cs: Seq<Seq<Option<Seq<char>>>>) -> Seq<Seq<char>>
    decreases cs.len(),
{
    if cs.len() == 0 {
        Seq::empty()
    } else {
        let p = embed_targets_spec(cs.drop_last());
        let raw = match cap_group(cs.last(), 1) { Some(x) => x, None => Seq::empty() };
        let e = trim_backslashes(spec_trim(raw));
        if e.len() == 0 { p } else { p.push(e) }
    }
}

/// The images of a text to check: their paths, web images excepted.
pub open spec fn image_targets_spec(cs: Seq<Seq<Option<Seq<char>>>>) -> Seq<Seq<char>>
    decreases cs.len(),
{
    if cs.len() == 0 {
        Seq::empty()
    } else {
        let p = image_targets_spec(cs.drop_last());
        let img = match cap_group(cs.last(), 2) { Some(x) => x, None => Seq::empty() };
        if spec_starts_with(img, "http"@) { p } else { p.push(img) }
    }
}

/// (lower-cased stem, stem) of the files that have a stem.
pub open spec fn stem_pairs(ds: Seq<VDoc>) -> Seq<(Seq<char>, Seq<char>)>
    decreases ds.len(),
{
    if ds.len() == 0 {
        Seq::empty()
    } else {
        let p = stem_pairs(ds.drop_last());
        match ds.last().1 { Some(st) => p.push((spec_to_lowercase(st), st)), None => p }
    }
}

/// The stem of the last pair with the key.
pub open spec fn last_with(ps: Seq<(Seq<char>, Seq<char>)>, key: Seq<char>) -> Option<Seq<char>>
    decreases ps.len(),
{
    if ps.len() == 0 {
        None
    } else if ps.last().0 == key {
        Some(ps.last().1)
    } else {
        last_with(ps.drop_last(), key)
    }
}

/// (errors, warnings) for the first `k` links of a file: a missing target
/// whose name exists in another case is an error; otherwise a broken link
/// that does not start with `@` and has no underscore is a warning.
pub open spec fn link_msgs(name: Seq<char>, ts: Seq<(Seq<char>, Seq<char>)>, ex: Seq<Vec<bool>>, i: int, k: nat, sp: Seq<(Seq<char>, Seq<char>)>)
    -> (Seq<Seq<char>>, Seq<Seq<char>>)
    decreases k,
{
    if k == 0 || k > ts.len() {
        (Seq::empty(), Seq::empty())
    } else {
        let p = link_msgs(name, ts, ex, i, (k - 1) as nat, sp);
        let t = ts[k - 1];
        if exists_at(ex, i, k - 1) {
            p
        } else {
            match last_with(sp, spec_to_lowercase(t.1)) {
                Some(correct) => (p.0.push(name + ": CASE-SENSITIVE [["@ + t.0 + "]] -> debería ser [["@ + correct + "]]"@), p.1),
                None => if !spec_starts_with(t.0, "@"@) && !spec_contains(t.0, "_"@) {
                    (p.0, p.1.push(name + ": Link roto [["@ + t.0 + "]]"@))
                } else {
                    p
                },
            }
        }
    }
}

/// Warnings for the first `k` embeds of a file whose target is missing.
pub open spec fn embed_msgs(name: Seq<char>, es: Seq<Seq<char>>, ex: Seq<Vec<bool>>, i: int, k: nat) -> Seq<Seq<char>>
    decreases k,
{
    if k == 0 || k > es.len() {
        Seq::empty()
    } else {
        let p = embed_msgs(name, es, ex, i, (k - 1) as nat);
        if exists_at(ex, i, k - 1) { p } else { p.push(name + ": Embed no existe ![["@ + es[k - 1] + "]]"@) }
    }
}

/// Warnings for the first `k` images of a file whose file is missing.
pub open spec fn image_msgs(name: Seq<char>, is: Seq<Seq<char>>, ex: Seq<Vec<bool>>, i: int, k: nat) -> Seq<Seq<char>>
    decreases k,
{
    if k == 0 || k > is.len() {
        Seq::empty()
    } else {
        let p = image_msgs(name, is, ex, i, (k - 1) as nat);
        if exists_at(ex, i, k - 1) { p } else { p.push(name + ": Imagen no existe: "@ + is[k - 1]) }
    }
}

/// Warning of the date phase for file `i`: its front matter date and its
/// modification time more than a day (1440 minutes) apart; the context
/// files excepted.
pub open spec fn date_warnings(d: VDoc, mtime: Option<u64>, ydate: Option<u64>) -> Seq<Seq<char>> {
    if d.0 matches Some(n) && spec_starts_with(n, "0."@) {
        Seq::empty()
    } else {
        match (d.2, mtime, ydate) {
            (Some(c), Some(fs), Some(ys)) => match spec_yaml_field(c, "last_updated"@) {
                Some(yd) => {
                    let diff: int = if fs >= ys { fs - ys } else { ys - fs };
                    if diff / 60 > 1440 {
                        seq![shown_name(d) + ": YAML date '"@ + yd + "' vs file mtime (>24h drift)"@]
                    } else {
                        Seq::empty()
                    }
                },
                None => Seq::empty(),
            },
            _ => Seq::empty(),
        }
    }
}

/// The links of a text to check (see [`link_targets_spec`]).
fn link_targets_exec(c: &str) -> (v: Vec<(String, String)>)
    ensures
        v@.map_values(|x: (String, String)| (x.0@, x.1@)) == link_targets_spec(spec_captures_all(RE_WIKI_LINK_WITH_ALIAS@, c@)),
{
    let caps = captures_all(RE_WIKI_LINK_WITH_ALIAS, c);
    let ghost cv = caps@.map_values(|x: Vec<Option<String>>| opt_strs(x@));
    let mut v: Vec<(String, String)> = Vec::new();
    let mut j: usize = 0;
    assert(cv.subrange(0, 0) =~= Seq::<Seq<Option<Seq<char>>>>::empty());
    while j < caps.len()
        invariant
            j <= caps@.len(),
            cv == caps@.map_values(|x: Vec<Option<String>>| opt_strs(x@)),
            cv == spec_captures_all(RE_WIKI_LINK_WITH_ALIAS@, c@),
            v@.map_values(|x: (String, String)| (x.0@, x.1@)) == link_targets_spec(cv.subrange(0, j as int)),
        decreases caps@.len() - j,
    {
        let ghost csub = cv.subrange(0, j + 1);
        assert(csub.drop_last() =~= cv.subrange(0, j as int));
        assert(csub.last() == opt_strs(caps@[j as int]@));
        let raw: String = match cap_at(&caps[j], 1) { Some(x) => x, None => String::new() };
        let l = trim_bs(&trim(&chars_of(raw.as_str())));
        let skip = l.len() == 0 || starts_with(&l, &chars_of("http")) || starts_with(&l, &chars_of("#"))
            || find(&l, &chars_of("Métrica")).is_some() || find(&l, &chars_of("Valor")).is_some();
        if !skip {
            let ls = string_of(&l);
            let has_anchor = find(&l, &chars_of("#")).is_some();
            let file = if has_anchor {
                let parts = split(&l, '#');
                proof {
                    crate::text::lemma_split_nonempty(l@, '#');
                    assert(views(parts@)[0] == parts@[0]@);
                }
                string_of(&parts[0])
            } else {
                string_of(&l)
            };
            let ghost v0 = v@.map_values(|x: (String, String)| (x.0@, x.1@));
            v.push((ls, file));
            assert(v@.map_values(|x: (String, String)| (x.0@, x.1@)) =~= v0.push((l@, file@)));
        }
        j = j + 1;
    }
    assert(cv.subrange(0, caps@.len() as int) =~= cv);
    v
}

/// The embeds of a text to check.
fn embed_targets_exec(c: &str) -> (v: Vec<String>)
    ensures
        strs(v@) == embed_targets_spec(spec_captures_all(RE_OBSIDIAN_EMBED@, c@)),
{
    let caps = captures_all(RE_OBSIDIAN_EMBED, c);
    let ghost cv = caps@.map_values(|x: Vec<Option<String>>| opt_strs(x@));
    let mut v: Vec<String> = Vec::new();
    let mut j: usize = 0;
    assert(cv.subrange(0, 0) =~= Seq::<Seq<Option<Seq<char>>>>::empty());
    while j < caps.len()
        invariant
            j <= caps@.len(),
            cv == caps@.map_values(|x: Vec<Option<String>>| opt_strs(x@)),
            cv == spec_captures_all(RE_OBSIDIAN_EMBED@, c@),
            strs(v@) == embed_targets_spec(cv.subrange(0, j as int)),
        decreases caps@.len() - j,
    {
        let ghost csub = cv.subrange(0, j + 1);
        assert(csub.drop_last() =~= cv.subrange(0, j as int));
        assert(csub.last() == opt_strs(caps@[j as int]@));
        let raw: String = match cap_at(&caps[j], 1) { Some(x) => x, None => String::new() };
        let e = trim_bs(&trim(&chars_of(raw.as_str())));
        if e.len() > 0 {
            let ghost v0 = strs(v@);
            v.push(string_of(&e));
            assert(strs(v@) =~= v0.push(e@));
        }
        j = j + 1;
    }
    assert(cv.subrange(0, caps@.len() as int) =~= cv);
    v
}

/// The images of a text to check.
fn image_targets_exec(c: &str) -> (v: Vec<String>)
    ensures
        strs(v@) == image_targets_spec(spec_captures_all(RE_IMAGE@, c@)),
{
    let caps = captures_all(RE_IMAGE, c);
    let ghost cv = caps@.map_values(|x: Vec<Option<String>>| opt_strs(x@));
    let mut v: Vec<String> = Vec::new();
    let mut j: usize = 0;
    assert(cv.subrange(0, 0) =~= Seq::<Seq<Option<Seq<char>>>>::empty());
    while j < caps.len()
        invariant
            j <= caps@.len(),
            cv == caps@.map_values(|x: Vec<Option<String>>| opt_strs(x@)),
            cv == spec_captures_all(RE_IMAGE@, c@),
            strs(v@) == image_targets_spec(cv.subrange(0, j as int)),
        decreases caps@.len() - j,
    {
        let ghost csub = cv.subrange(0, j + 1);
        assert(csub.drop_last() =~= cv.subrange(0, j as int));
        assert(csub.last() == opt_strs(caps@[j as int]@));
        let img: String = match cap_at(&caps[j], 2) { Some(x) => x, None => String::new() };
        if !starts_with(&chars_of(img.as_str()), &chars_of("http")) {
            let ghost v0 = strs(v@);
            v.push(img);
            assert(strs(v@) =~= v0.push(v@.last()@));
        }
        j = j + 1;
    }
    assert(cv.subrange(0, caps@.len() as int) =~= cv);
    v
}

// ─────────────────────────────────────────────────────────────────────────
// Running the phases
// ─────────────────────────────────────────────────────────────────────────

/// (errors, warnings) a phase reports for file `i`.
pub open spec fn doc_phase_msgs(kind: u8, ds: Seq<VDoc>, f: VerifyFacts, i: int) -> (Seq<Seq<char>>, Seq<Seq<char>>) {
    let d = ds[i];
    let e = Seq::<Seq<char>>::empty();
    if kind == 2 {
        (yaml_errors(d), e)
    } else if kind == 4 {
        (parent_errors(d, doc_ids(ds)), e)
    } else if kind == 5 {
        (e, breadcrumb_warnings(d))
    } else if kind == 6 {
        (e, type_warnings(d))
    } else if kind == 7 {
        (e, status_warnings(d))
    } else if kind == 8 {
        (e, date_warnings(d, fact_at(f.mtimes@, i), fact_at(f.yaml_dates@, i)))
    } else if kind == 9 {
        match d.2 {
            Some(c) => {
                let ts = link_targets_spec(spec_captures_all(RE_WIKI_LINK_WITH_ALIAS@, c));
                link_msgs(shown_name(d), ts, f.links_exist@, i, ts.len(), stem_pairs(ds))
            },
            None => (e, e),
        }
    } else if kind == 10 {
        match d.2 {
            Some(c) => {
                let es = embed_targets_spec(spec_captures_all(RE_OBSIDIAN_EMBED@, c));
                (e, embed_msgs(shown_name(d), es, f.embeds_exist@, i, es.len()))
            },
            None => (e, e),
        }
    } else if kind == 11 {
        match d.2 {
            Some(c) => {
                let is = image_targets_spec(spec_captures_all(RE_IMAGE@, c));
                (e, image_msgs(shown_name(d), is, f.images_exist@, i, is.len()))
            },
            None => (e, e),
        }
    } else if kind == 12 {
        (e, fence_warnings(d))
    } else if kind == 13 {
        (e, mermaid_warnings(d))
    } else if kind == 14 {
        (e, table_warnings(d))
    } else if kind == 15 {
        (e, heading_warnings(d))
    } else if kind == 16 {
        (e, content_warnings(d))
    } else if kind == 17 {
        (e, placeholder_warnings(d))
    } else if kind == 19 {
        (e, orphan_warnings(d, all_refs(ds)))
    } else if kind == 20 {
        (e, children_warnings(d, child_parents(ds)))
    } else if kind == 21 {
        (e, hash_warnings(d))
    } else {
        (e, e)
    }
}

/// The messages of a phase for the first `n` files, in file order.
pub open spec fn docs_phase_msgs(kind: u8, ds: Seq<VDoc>, f: VerifyFacts, n: nat) -> (Seq<Seq<char>>, Seq<Seq<char>>)
    decreases n,
{
    if n == 0 || n > ds.len() {
        (Seq::empty(), Seq::empty())
    } else {
        let p = docs_phase_msgs(kind, ds, f, (n - 1) as nat);
        let m = doc_phase_msgs(kind, ds, f, n - 1);
        (p.0 + m.0, p.1 + m.1)
    }
}

/// (errors, warnings) of phase `kind` over the files: no file at all is an
/// error of phase 1; duplicate ids (phase 3) and titles (phase 18) are
/// reported per group of files; the other phases report per file.
pub open spec fn phase_msgs(kind: u8, ds: Seq<VDoc>, f: VerifyFacts) -> (Seq<Seq<char>>, Seq<Seq<char>>) {
    if kind == 1 {
        (if ds.len() == 0 { seq!["No se encontraron archivos .md en el directorio"@] } else { Seq::empty() }, Seq::empty())
    } else if kind == 3 {
        (duplicate_msgs(group_pairs(key_pairs(ds, false)), false), Seq::empty())
    } else if kind == 18 {
        (Seq::empty(), duplicate_msgs(group_pairs(key_pairs(ds, true)), true))
    } else {
        docs_phase_msgs(kind, ds, f, ds.len())
    }
}

/// Link, embed or image messages of a file with its facts.
fn fs_msgs(kind: u8, ds: &Vec<(Option<String>, Option<String>, Option<String>)>, f: &VerifyFacts, i: usize,
    stems: &Vec<(String, String)>) -> (r: (Vec<String>, Vec<String>))
    requires
        i < ds@.len(),
        kind == 9 || kind == 10 || kind == 11,
        stems@.map_values(|x: (String, String)| (x.0@, x.1@)) == stem_pairs(vds(ds@)),
    ensures
        (strs(r.0@), strs(r.1@)) == doc_phase_msgs(kind, vds(ds@), *f, i as int),
{
    let ghost dv = vds(ds@);
    let d = &ds[i];
    assert(dv[i as int] == vdoc_view(*d));
    match &d.2 {
        Some(c) => {
            let name = shown_name_exec(d);
            let mut errs: Vec<String> = Vec::new();
            let mut warns: Vec<String> = Vec::new();
            if kind == 9 {
                let ts = link_targets_exec(c.as_str());
                let ghost tv = ts@.map_values(|x: (String, String)| (x.0@, x.1@));
                let ghost sp = stems@.map_values(|x: (String, String)| (x.0@, x.1@));
                let mut k: usize = 0;
                while k < ts.len()
                    invariant
                        k <= ts@.len(),
                        i < ds@.len(),
                        tv == ts@.map_values(|x: (String, String)| (x.0@, x.1@)),
                        sp == stems@.map_values(|x: (String, String)| (x.0@, x.1@)),
                        (strs(errs@), strs(warns@)) == link_msgs(name@, tv, f.links_exist@, i as int, k as nat, sp),
                    decreases ts@.len() - k,
                {
                    let ex = if i < f.links_exist.len() && k < f.links_exist[i].len() { f.links_exist[i][k] } else { true };
                    assert(tv[k as int] == (ts@[k as int].0@, ts@[k as int].1@));
                    if !ex {
                        let lower = to_lowercase(ts[k].1.as_str());
                        let mut found: Option<usize> = None;
                        let mut j: usize = stems.len();
                        assert(sp.subrange(0, sp.len() as int) =~= sp);
                        while j > 0
                            invariant
                                j <= stems@.len(),
                                sp == stems@.map_values(|x: (String, String)| (x.0@, x.1@)),
                                found is None ==> last_with(sp, lower@) == last_with(sp.subrange(0, j as int), lower@),
                                found matches Some(x) ==> x < stems@.len() && last_with(sp, lower@) == Some(sp[x as int].1),
                            decreases j,
                        {
                            if found.is_none() {
                                let ghost pre = sp.subrange(0, j as int);
                                assert(pre.drop_last() =~= sp.subrange(0, j - 1));
                                assert(pre.last() == sp[j - 1]);
                                if str_eq(stems[j - 1].0.as_str(), lower.as_str()) {
                                    found = Some(j - 1);
                                }
                            }
                            j = j - 1;
                        }
                        assert(sp.subrange(0, 0) =~= Seq::<(Seq<char>, Seq<char>)>::empty());
                        match found {
                            Some(x) => {
                                let mut m = concat2(name.as_str(), ": CASE-SENSITIVE [[");
                                push_str(&mut m, ts[k].0.as_str());
                                push_str(&mut m, "]] -> debería ser [[");
                                push_str(&mut m, stems[x].1.as_str());
                                push_str(&mut m, "]]");
                                let ghost e0 = strs(errs@);
                                errs.push(m);
                                assert(strs(errs@) =~= e0.push(m@));
                            },
                            None => {
                                let l = chars_of(ts[k].0.as_str());
                                if !starts_with(&l, &chars_of("@")) && find(&l, &chars_of("_")).is_none() {
                                    let mut m = concat2(name.as_str(), ": Link roto [[");
                                    push_str(&mut m, ts[k].0.as_str());
                                    push_str(&mut m, "]]");
                                    let ghost w0 = strs(warns@);
                                    warns.push(m);
                                    assert(strs(warns@) =~= w0.push(m@));
                                }
                            },
                        }
                    }
                    k = k + 1;
                }
            } else if kind == 10 {
                let es = embed_targets_exec(c.as_str());
                let mut k: usize = 0;
                assert(strs(errs@) =~= Seq::<Seq<char>>::empty());
                while k < es.len()
                    invariant
                        k <= es@.len(),
                        strs(errs@) == Seq::<Seq<char>>::empty(),
                        strs(warns@) == embed_msgs(name@, strs(es@), f.embeds_exist@, i as int, k as nat),
                    decreases es@.len() - k,
                {
                    let ex = if i < f.embeds_exist.len() && k < f.embeds_exist[i].len() { f.embeds_exist[i][k] } else { true };
                    if !ex {
                        let mut m = concat2(name.as_str(), ": Embed no existe ![[");
                        push_str(&mut m, es[k].as_str());
                        push_str(&mut m, "]]");
                        let ghost w0 = strs(warns@);
                        warns.push(m);
                        assert(strs(warns@) =~= w0.push(m@));
                    }
                    k = k + 1;
                }
            } else {
                let is = image_targets_exec(c.as_str());
                let mut k: usize = 0;
                assert(strs(errs@) =~= Seq::<Seq<char>>::empty());
                while k < is.len()
                    invariant
                        k <= is@.len(),
                        strs(errs@) == Seq::<Seq<char>>::empty(),
                        strs(warns@) == image_msgs(name@, strs(is@), f.images_exist@, i as int, k as nat),
                    decreases is@.len() - k,
                {
                    let ex = if i < f.images_exist.len() && k < f.images_exist[i].len() { f.images_exist[i][k] } else { true };
                    if !ex {
                        let m = concat3(name.as_str(), ": Imagen no existe: ", is[k].as_str());
                        let ghost w0 = strs(warns@);
                        warns.push(m);
                        assert(strs(warns@) =~= w0.push(m@));
                    }
                    k = k + 1;
                }
            }
            (errs, warns)
        },
        None => (none(), none()),
    }
}

/// Date message of a file with its facts.
fn date_exec(ds: &Vec<(Option<String>, Option<String>, Option<String>)>, f: &VerifyFacts, i: usize) -> (v: Vec<String>)
    requires
        i < ds@.len(),
    ensures
        strs(v@) == date_warnings(vds(ds@)[i as int], fact_at(f.mtimes@, i as int), fact_at(f.yaml_dates@, i as int)),
{
    let d = &ds[i];
    assert(vds(ds@)[i as int] == vdoc_view(*d));
    match &d.0 {
        Some(n) => {
            if starts_with(&chars_of(n.as_str()), &chars_of("0.")) {
                return none();
            }
        },
        None => {},
    }
    let mt: Option<u64> = if i < f.mtimes.len() { f.mtimes[i] } else { None };
    let yd: Option<u64> = if i < f.yaml_dates.len() { f.yaml_dates[i] } else { None };
    match (&d.2, mt, yd) {
        (Some(c), Some(fs), Some(ys)) => match yaml_field(c.as_str(), "last_updated") {
            Some(date) => {
                let diff: u64 = if fs >= ys { fs - ys } else { ys - fs };
                if diff / 60 > 1440 {
                    let mut m = shown_name_exec(d);
                    push_str(&mut m, ": YAML date '");
                    push_str(&mut m, date.as_str());
                    push_str(&mut m, "' vs file mtime (>24h drift)");
                    one(m)
                } else {
                    none()
                }
            },
            None => none(),
        },
        _ => none(),
    }
}

/// (lower-cased stem, stem) of the files.
fn stem_pairs_exec(ds: &Vec<(Option<String>, Option<String>, Option<String>)>) -> (v: Vec<(String, String)>)
    ensures
        v@.map_values(|x: (String, String)| (x.0@, x.1@)) == stem_pairs(vds(ds@)),
{
    let ghost dv = vds(ds@);
    let mut v: Vec<(String, String)> = Vec::new();
    let mut i: usize = 0;
    assert(dv.subrange(0, 0) =~= Seq::<VDoc>::empty());
    while i < ds.len()
        invariant
            i <= ds@.len(),
            dv == vds(ds@),
            v@.map_values(|x: (String, String)| (x.0@, x.1@)) == stem_pairs(dv.subrange(0, i as int)),
        decreases ds@.len() - i,
    {
        let ghost sub = dv.subrange(0, i + 1);
        assert(sub.drop_last() =~= dv.subrange(0, i as int));
        assert(sub.last() == vdoc_view(ds@[i as int]));
        match &ds[i].1 {
            Some(st) => {
                let ghost v0 = v@.map_values(|x: (String, String)| (x.0@, x.1@));
                v.push((to_lowercase(st.as_str()), owned(st.as_str())));
                assert(v@.map_values(|x: (String, String)| (x.0@, x.1@)) =~= v0.push((spec_to_lowercase(st@), st@)));
            },
            None => {},
        }
        i = i + 1;
    }
    assert(dv.subrange(0, ds@.len() as int) =~= dv);
    v
}

/// What a phase reports for file `i`, given the shared context.
fn doc_msgs_exec(kind: u8, ds: &Vec<(Option<String>, Option<String>, Option<String>)>, f: &VerifyFacts, i: usize,
    ids: &Vec<String>, refs: &Vec<String>, parents: &Vec<String>, stems: &Vec<(String, String)>) -> (r: (Vec<String>, Vec<String>))
    requires
        i < ds@.len(),
        strs(ids@) == doc_ids(vds(ds@)),
        strs(refs@) == all_refs(vds(ds@)),
        strs(parents@) == child_parents(vds(ds@)),
        stems@.map_values(|x: (String, String)| (x.0@, x.1@)) == stem_pairs(vds(ds@)),
    ensures
        (strs(r.0@), strs(r.1@)) == doc_phase_msgs(kind, vds(ds@), *f, i as int),
{
    let d = &ds[i];
    assert(vds(ds@)[i as int] == vdoc_view(*d));
    if kind == 9 || kind == 10 || kind == 11 {
        return fs_msgs(kind, ds, f, i, stems);
    }
    if kind == 2 {
        (yaml_errors_exec(d), none())
    } else if kind == 4 {
        (parent_exec(d, ids), none())
    } else if kind == 5 {
        (none(), breadcrumb_exec(d))
    } else if kind == 6 {
        (none(), type_exec(d))
    } else if kind == 7 {
        (none(), status_exec(d))
    } else if kind == 8 {
        (none(), date_exec(ds, f, i))
    } else if kind == 12 {
        (none(), fence_exec(d))
    } else if kind == 13 {
        (none(), mermaid_exec(d))
    } else if kind == 14 {
        (none(), table_exec(d))
    } else if kind == 15 {
        (none(), heading_exec(d))
    } else if kind == 16 {
        (none(), content_exec(d))
    } else if kind == 17 {
        (none(), placeholder_exec(d))
    } else if kind == 19 {
        (none(), orphan_exec(d, refs))
    } else if kind == 20 {
        (none(), children_exec(d, parents))
    } else if kind == 21 {
        (none(), hash_exec(d))
    } else {
        (none(), none())
    }
}

/// Appends texts.
fn append_all(v: &mut Vec<String>, w: Vec<String>)
    ensures
        strs(final(v)@) == strs(old(v)@) + strs(w@),
{
    let ghost v0 = strs(v@);
    let mut i: usize = 0;
    assert(v0 + strs(w@).subrange(0, 0) =~= v0);
    while i < w.len()
        invariant
            i <= w@.len(),
            strs(v@) == v0 + strs(w@).subrange(0, i as int),
        decreases w@.len() - i,
    {
        let ghost before = strs(v@);
        let x = owned(w[i].as_str());
        v.push(x);
        assert(strs(v@) =~= before.push(w@[i as int]@));
        assert(strs(w@).subrange(0, i + 1) =~= strs(w@).subrange(0, i as int).push(w@[i as int]@));
        assert(strs(v@) =~= v0 + strs(w@).subrange(0, i + 1));
        i = i + 1;
    }
    assert(strs(w@).subrange(0, w@.len() as int) =~= strs(w@));
}

impl VerifyCommand {
    /// Runs one phase over the files, given as (file name, file stem,
    /// content when it could be read), with what the file system tells of
    /// them: the phase fails exactly when it reports an error.
    pub fn check_phase(&self, id: u8, name: &str, description: &str, ds: &Vec<(Option<String>, Option<String>, Option<String>)>, f: &VerifyFacts)
        -> (p: VerificationPhase)
        ensures
            p.id == id,
            p.name@ == name@,
            p.description@ == description@,
            (strs(p.errors@), strs(p.warnings@)) == phase_msgs(id, vds(ds@), *f),
            p.passed == (p.errors@.len() == 0),
            p.duration_ms == 0,
    {
        let mut p = VerificationPhase::new(id, name, description);
        let ghost dv = vds(ds@);
        let (errs, warns): (Vec<String>, Vec<String>) = if id == 1 {
            if ds.len() == 0 {
                (one(owned("No se encontraron archivos .md en el directorio")), none())
            } else {
                (none(), none())
            }
        } else if id == 3 {
            let g = groups_exec(ds, false);
            (duplicate_exec(&g, false), none())
        } else if id == 18 {
            let g = groups_exec(ds, true);
            (none(), duplicate_exec(&g, true))
        } else {
            let ids = doc_ids_exec(ds);
            let refs = all_refs_exec(ds);
            let parents = child_parents_exec(ds);
            let stems = stem_pairs_exec(ds);
            let mut errs: Vec<String> = Vec::new();
            let mut warns: Vec<String> = Vec::new();
            let mut i: usize = 0;
            assert(strs(errs@) =~= Seq::<Seq<char>>::empty());
            assert(strs(warns@) =~= Seq::<Seq<char>>::empty());
            while i < ds.len()
                invariant
                    i <= ds@.len(),
                    dv == vds(ds@),
                    strs(ids@) == doc_ids(dv),
                    strs(refs@) == all_refs(dv),
                    strs(parents@) == child_parents(dv),
                    stems@.map_values(|x: (String, String)| (x.0@, x.1@)) == stem_pairs(dv),
                    (strs(errs@), strs(warns@)) == docs_phase_msgs(id, dv, *f, i as nat),
                decreases ds@.len() - i,
            {
                let (e, w) = doc_msgs_exec(id, ds, f, i, &ids, &refs, &parents, &stems);
                append_all(&mut errs, e);
                append_all(&mut warns, w);
                i = i + 1;
            }
            (errs, warns)
        };
        p.errors = errs;
        p.warnings = warns;
        p.passed = p.errors.len() == 0;
        p
    }
}

/// Whether a phase runs: the one asked for (none when the input names no
/// phase), and no slow phase in quick mode.
pub open spec fn selected(cmd: VerifyCommand, id: u8) -> bool {
    &&& match cmd.phase { Some(inp) => spec_parse_phase(inp@) == Some(id), None => true }
    &&& !(cmd.quick && (id == 16 || id == 17 || id == 19))
}

/// The phases among the first `n` of the table that run, in order.
pub open spec fn run_phases(cmd: VerifyCommand, n: nat) -> Seq<(u8, Seq<char>, Seq<char>)>
    decreases n,
{
    if n == 0 || n > phase_specs().len() {
        Seq::empty()
    } else {
        let p = run_phases(cmd, (n - 1) as nat);
        let e = phase_specs()[n - 1];
        if selected(cmd, e.0) { p.push(e) } else { p }
    }
}

/// `n`, or `usize::MAX` when larger.
pub open spec fn clamp(n: nat) -> nat {
    if n > usize::MAX { usize::MAX as nat } else { n }
}

/// A phase as it is reported: (number, name, description, errors, warnings).
pub open spec fn phase_view(p: VerificationPhase) -> (u8, Seq<char>, Seq<char>, Seq<Seq<char>>, Seq<Seq<char>>) {
    (p.id, p.name@, p.description@, strs(p.errors@), strs(p.warnings@))
}

impl VerifyCommand {
    /// Whether phase `id` runs.
    fn is_selected(&self, id: u8) -> (r: bool)
        ensures
            r == selected(*self, id),
    {
        let asked = match &self.phase {
            Some(inp) => match parse_phase(inp.as_str()) {
                Some(o) => o == id,
                None => false,
            },
            None => true,
        };
        asked && !(self.quick && (id == 16 || id == 17 || id == 19))
    }

    /// Runs the selected phases over the files (see [`VerifyCommand::check_phase`]):
    /// the phases in order; the totals (saturating at `usize::MAX`) and the
    /// outcome agree with them. Durations are left at 0.
    pub fn run(&self, ds: &Vec<(Option<String>, Option<String>, Option<String>)>, f: &VerifyFacts) -> (r: VerificationResult)
        ensures
            r.phases@.len() == run_phases(*self, phase_specs().len()).len(),
            forall|k: int| 0 <= k < r.phases@.len() ==> {
                let e = #[trigger] run_phases(*self, phase_specs().len())[k];
                let m = phase_msgs(e.0, vds(ds@), *f);
                &&& phase_view(r.phases@[k]) == (e.0, e.1, e.2, m.0, m.1)
                &&& r.phases@[k].passed == (m.0.len() == 0)
            },
            r.total_errors == clamp(errors_of(r.phases@)),
            r.total_warnings == clamp(warnings_of(r.phases@)),
            r.passed == (passed_of(r.phases@) == r.phases@.len()),
            r.duration_ms == 0,
    {
        let table = phase_table();
        let mut result = VerificationResult::new();
        let mut i: usize = 0;
        while i < table.len()
            invariant
                i <= table@.len(),
                table@.len() == phase_specs().len(),
                forall|k: int| 0 <= k < table@.len() ==> (#[trigger] table@[k]).0 == phase_specs()[k].0
                    && table@[k].1@ == phase_specs()[k].1 && table@[k].2@ == phase_specs()[k].2,
                result.phases@.len() == run_phases(*self, i as nat).len(),
                forall|k: int| 0 <= k < result.phases@.len() ==> {
                    let e = #[trigger] run_phases(*self, i as nat)[k];
                    let m = phase_msgs(e.0, vds(ds@), *f);
                    &&& phase_view(result.phases@[k]) == (e.0, e.1, e.2, m.0, m.1)
                    &&& result.phases@[k].passed == (m.0.len() == 0)
                },
                result.total_errors == clamp(errors_of(result.phases@)),
                result.total_warnings == clamp(warnings_of(result.phases@)),
                result.passed == (passed_of(result.phases@) == result.phases@.len()),
                result.duration_ms == 0,
            decreases table@.len() - i,
        {
            let (id, name, desc) = table[i];
            let ghost prev = run_phases(*self, i as nat);
            if self.is_selected(id) {
                let p = self.check_phase(id, name, desc, ds, f);
                let ghost p0 = result.phases@;
                let el = p.errors.len();
                let wl = p.warnings.len();
                let ok = p.passed;
                result.total_errors = result.total_errors.saturating_add(el);
                result.total_warnings = result.total_warnings.saturating_add(wl);
                if !ok {
                    result.passed = false;
                }
                result.phases.push(p);
                proof {
                    assert(result.phases@.drop_last() =~= p0);
                    lemma_passed_bound(p0);
                    assert(run_phases(*self, (i + 1) as nat) == prev.push(phase_specs()[i as int]));
                    assert forall|k: int| 0 <= k < result.phases@.len() implies {
                        let e = #[trigger] run_phases(*self, (i + 1) as nat)[k];
                        let m = phase_msgs(e.0, vds(ds@), *f);
                        &&& phase_view(result.phases@[k]) == (e.0, e.1, e.2, m.0, m.1)
                        &&& result.phases@[k].passed == (m.0.len() == 0)
                    } by {
                        if k < p0.len() {
                            assert(result.phases@[k] == p0[k]);
                            assert(run_phases(*self, (i + 1) as nat)[k] == prev[k]);
                        }
                    }
                }
            } else {
                assert(run_phases(*self, (i + 1) as nat) == prev);
            }
            i = i + 1;
        }
        result
    }
}

/// What `chrono::NaiveDateTime::parse_from_str` reads from a text in a
/// format, as seconds since 1970-01-01 00:00:00 of that calendar time.
pub uninterp spec fn naive_datetime_secs(s: Seq<char>, fmt: Seq<char>) -> Option<i64>;

/// What `chrono::NaiveDate::parse_from_str` reads from a text in a format,
/// at midnight, as seconds since 1970-01-01 00:00:00 of that calendar time.
pub uninterp spec fn naive_date_secs(s: Seq<char>, fmt: Seq<char>) -> Option<i64>;

/// `chrono::NaiveDateTime::parse_from_str(s, fmt)`, the calendar time read
/// given as `and_utc().timestamp()`; `None` when the text does not parse.
#[verifier::external_body]
fn naive_datetime(s: &str, fmt: &str) -> (r: Option<i64>)
    ensures
        r == naive_datetime_secs(s@, fmt@),
{
    chrono::NaiveDateTime::parse_from_str(s, fmt).ok().map(|n| n.and_utc().timestamp())
}

/// `chrono::NaiveDate::parse_from_str(s, fmt)` with `and_hms_opt(0, 0, 0)`,
/// the calendar time given as `and_utc().timestamp()`; `None` when the text
/// does not parse.
#[verifier::external_body]
fn naive_date(s: &str, fmt: &str) -> (r: Option<i64>)
    ensures
        r == naive_date_secs(s@, fmt@),
{
    chrono::NaiveDate::parse_from_str(s, fmt).ok().and_then(|d| d.and_hms_opt(0, 0, 0)).map(|n| n.and_utc().timestamp())
}

/// A calendar time (seconds since 1970-01-01 00:00:00 of it) read in the
/// machine's local time zone, as seconds since the epoch
/// (`TimeZone::from_local_datetime` on `chrono::Local`, `single`, then
/// `timestamp`): `None` where that local time is ambiguous or does not
/// exist, or lies outside chrono's range. The time zone's offset is less
/// than a day either way (`FixedOffset::east_opt` refuses any other), so a
/// result lies within a day of the calendar time; which one it is depends
/// on the machine's time zone and is not stated.
#[verifier::external_body]
fn local_secs(naive: i64) -> (r: Option<i64>)
    ensures
        r matches Some(t) ==> naive - 86400 < t < naive + 86400,
{
    match chrono::DateTime::from_timestamp(naive, 0) {
        Some(d) => chrono::TimeZone::from_local_datetime(&chrono::Local, &d.naive_utc()).single().map(|t| t.timestamp()),
        None => None,
    }
}

/// The text of a front matter date as it is read: trimmed, without double
/// quotes around it.
pub open spec fn cleaned_date(s: Seq<char>) -> Seq<char> {
    strip_dquotes(spec_trim(s))
}

/// Seconds of an `i64` time as an unsigned number (two's complement for
/// times before the epoch, as a cast gives).
pub open spec fn spec_as_secs(t: i64) -> int {
    if t >= 0 { t as int } else { t + 18446744073709551616 }
}

fn as_secs(t: i64) -> (r: u64)
    ensures
        r == spec_as_secs(t),
{
    if t >= 0 { t as u64 } else { (t as i128 + 18446744073709551616i128) as u64 }
}


/// A try at reading a date: the calendar time one format reads (if any),
/// and that time in the local time zone (if it could be placed there).
pub type DateTry = (Option<i64>, Option<i64>);

/// The first try whose format read the text and whose time could be placed
/// in the local time zone gives the date, as unsigned seconds.
pub open spec fn spec_pick_date(tries: Seq<DateTry>) -> Option<u64>
    decreases tries.len(),
{
    if tries.len() == 0 {
        None
    } else {
        match tries[0] {
            (Some(_), Some(t)) => Some(spec_as_secs(t) as u64),
            _ => spec_pick_date(tries.drop_first()),
        }
    }
}

/// What a local placing of a read time can be: nothing when no time was
/// read; otherwise nothing, or a time within a day of the one read.
pub open spec fn local_placing(naive: Option<i64>, local: Option<i64>) -> bool {
    match naive {
        None => local is None,
        Some(n) => local matches Some(t) ==> n - 86400 < t < n + 86400,
    }
}

/// The calendar times the three date formats read from a cleaned text:
/// `YYYY-MM-DD HH:MM:SS`, `YYYY-MM-DD HH:MM`, `YYYY-MM-DD` at midnight.
pub open spec fn date_reads(s: Seq<char>) -> Seq<Option<i64>> {
    seq![
        naive_datetime_secs(s, "%Y-%m-%d %H:%M:%S"@),
        naive_datetime_secs(s, "%Y-%m-%d %H:%M"@),
        naive_date_secs(s, "%Y-%m-%d"@),
    ]
}

impl VerifyCommand {
    /// The date of the first try that both read the text and placed it in
    /// the local time zone (see [`spec_pick_date`]).
    pub fn pick_date(tries: &Vec<DateTry>) -> (r: Option<u64>)
        ensures
            r == spec_pick_date(tries@),
    {
        let mut i: usize = 0;
        assert(tries@.subrange(0, tries@.len() as int) =~= tries@);
        while i < tries.len()
            invariant
                i <= tries@.len(),
                spec_pick_date(tries@) == spec_pick_date(tries@.subrange(i as int, tries@.len() as int)),
            decreases tries@.len() - i,
        {
            let ghost rest = tries@.subrange(i as int, tries@.len() as int);
            assert(rest[0] == tries@[i as int]);
            assert(rest.drop_first() =~= tries@.subrange(i + 1, tries@.len() as int));
            match tries[i] {
                (Some(_), Some(t)) => {
                    return Some(as_secs(t));
                },
                _ => {},
            }
            i = i + 1;
        }
        assert(tries@.subrange(i as int, tries@.len() as int) =~= Seq::<DateTry>::empty());
        None
    }

    /// The front matter date of a document in seconds since the epoch: the
    /// text trimmed and without double quotes around it is read as
    /// `YYYY-MM-DD HH:MM:SS`, else `YYYY-MM-DD HH:MM`, else `YYYY-MM-DD` at
    /// midnight, and the first time read that can be placed in the machine's
    /// local time zone gives the date. Where that places a time depends on
    /// the time zone: the contract says only that each placing lies within
    /// a day of the time read.
    pub fn parse_date_to_secs(date_str: &str) -> (r: Option<u64>)
        ensures
            exists|l: Seq<Option<i64>>| {
                &&& l.len() == 3
                &&& forall|k: int| 0 <= k < 3 ==> local_placing(date_reads(cleaned_date(date_str@))[k], #[trigger] l[k])
                &&& r == spec_pick_date(seq![
                        (date_reads(cleaned_date(date_str@))[0], l[0]),
                        (date_reads(cleaned_date(date_str@))[1], l[1]),
                        (date_reads(cleaned_date(date_str@))[2], l[2]),
                    ])
            },
    {
        let cleaned = string_of(&strip_dquotes_exec(&trim(&chars_of(date_str))));
        let n1 = naive_datetime(cleaned.as_str(), "%Y-%m-%d %H:%M:%S");
        let n2 = naive_datetime(cleaned.as_str(), "%Y-%m-%d %H:%M");
        let n3 = naive_date(cleaned.as_str(), "%Y-%m-%d");
        let l1 = match n1 { Some(n) => local_secs(n), None => None };
        let l2 = match n2 { Some(n) => local_secs(n), None => None };
        let l3 = match n3 { Some(n) => local_secs(n), None => None };
        let mut tries: Vec<DateTry> = Vec::new();
        tries.push((n1, l1));
        tries.push((n2, l2));
        tries.push((n3, l3));
        let r = Self::pick_date(&tries);
        proof {
            let d = date_reads(cleaned_date(date_str@));
            let l = seq![l1, l2, l3];
            assert(local_placing(d[0], l[0]));
            assert(local_placing(d[1], l[1]));
            assert(local_placing(d[2], l[2]));
            assert(cleaned@ == cleaned_date(date_str@));
            assert(tries@ =~= seq![(d[0], l[0]), (d[1], l[1]), (d[2], l[2])]);
            assert(forall|k: int| 0 <= k < 3 ==> local_placing(d[k], #[trigger] l[k]));
            assert(l.len() == 3);
        }
        r
    }

    /// The wiki links of a document to look for on disk, as (link, file it
    /// names): the file is looked for as `<file>.md` in the data directory.
    pub fn link_targets(content: &str) -> (v: Vec<(String, String)>)
        ensures
            v@.map_values(|x: (String, String)| (x.0@, x.1@)) == link_targets_spec(spec_captures_all(RE_WIKI_LINK_WITH_ALIAS@, content@)),
    {
        link_targets_exec(content)
    }

    /// The embeds of a document to look for on disk (as `<embed>.md`).
    pub fn embed_targets(content: &str) -> (v: Vec<String>)
        ensures
            strs(v@) == embed_targets_spec(spec_captures_all(RE_OBSIDIAN_EMBED@, content@)),
    {
        embed_targets_exec(content)
    }

    /// The image paths of a document to look for on disk.
    pub fn image_targets(content: &str) -> (v: Vec<String>)
        ensures
            strs(v@) == image_targets_spec(spec_captures_all(RE_IMAGE@, content@)),
    {
        image_targets_exec(content)
    }
}

} // verus!
