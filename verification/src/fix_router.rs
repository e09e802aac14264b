//! Routing of detected anomalies to the commands that repair them.

use vstd::prelude::*;
use crate::text::{chars_of, decimal, owned, push_str, spec_decimal};

verus! {

/// Kinds of anomaly the diagnostics report.
#[derive(Debug, Clone, Copy, PartialEq, Eq, Hash)]
pub enum AnomalyType {
    DateDrift,
    HashMismatch,
    BrokenLink,
    CaseSensitiveLink,
    MissingYamlFrontmatter,
    InvalidType,
    InvalidStatus,
    NietosCountMismatch,
    ChildrenCountMismatch,
    TrailingWhitespace,
    MissingFinalNewline,
    LineTooLong,
    CodeBlockNoLanguage,
    DuplicateHeader,
    TableNoHeader,
    ImageNoAlt,
    OrphanDocument,
    BreadcrumbInconsistent,
}

/// Severity of an anomaly.
#[derive(Debug, Clone, Copy, PartialEq, Eq)]
pub enum FixSeverity {
    Critical,
    High,
    Medium,
    Low,
}

/// Icon shown for a severity.
pub open spec fn severity_icon(s: FixSeverity) -> Seq<char> {
    match s {
        FixSeverity::Critical => "🔴"@,
        FixSeverity::High => "🟠"@,
        FixSeverity::Medium => "🟡"@,
        FixSeverity::Low => "🔵"@,
    }
}

impl FixSeverity {
    /// Icon of the severity.
    pub fn icon(&self) -> (s: &'static str)
        ensures
            s@ == severity_icon(*self),
    {
        match self {
            FixSeverity::Critical => "🔴",
            FixSeverity::High => "🟠",
            FixSeverity::Medium => "🟡",
            FixSeverity::Low => "🔵",
        }
    }
}

/// A suggested repair.
#[derive(Debug, Clone)]
pub struct FixSuggestion {
    pub command: String,
    pub description: String,
    pub auto_safe: bool,
    pub severity: FixSeverity,
}

/// The repair known for each anomaly: command, description, whether it is
/// safe to apply automatically, and severity.
pub open spec fn route_table(a: AnomalyType) -> Option<(Seq<char>, Seq<char>, bool, FixSeverity)> {
    match a {
        AnomalyType::DateDrift => Some(("sync --dates-only --force"@, "Sincroniza fechas YAML con mtime"@, true, FixSeverity::Medium)),
        AnomalyType::HashMismatch => Some(("sync --hashes-only"@, "Recalcula content_hash"@, true, FixSeverity::High)),
        AnomalyType::BrokenLink => Some(("links --fix-broken"@, "Repara enlaces rotos"@, false, FixSeverity::Critical)),
        AnomalyType::CaseSensitiveLink => Some(("links --fix-case"@, "Corrige mayúsculas/minúsculas"@, true, FixSeverity::High)),
        AnomalyType::NietosCountMismatch => Some(("sync --fix-all"@, "Sincroniza conteos de Nietos"@, true, FixSeverity::High)),
        AnomalyType::ChildrenCountMismatch => Some(("sync --children"@, "Recalcula children_count"@, true, FixSeverity::High)),
        AnomalyType::TrailingWhitespace => Some(("lint --fix"@, "Elimina espacios trailing"@, true, FixSeverity::Low)),
        AnomalyType::MissingFinalNewline => Some(("lint --fix"@, "Agrega newline final"@, true, FixSeverity::Low)),
        AnomalyType::CodeBlockNoLanguage => Some(("# MANUAL: Agregar lenguaje a ```"@, "Especificar lenguaje del código"@, false, FixSeverity::Low)),
        AnomalyType::MissingYamlFrontmatter => Some(("init --add-yaml"@, "Agrega frontmatter YAML"@, false, FixSeverity::Critical)),
        AnomalyType::BreadcrumbInconsistent => Some(("sync --breadcrumbs"@, "Regenera breadcrumbs"@, true, FixSeverity::Medium)),
        _ => None,
    }
}

/// The suggestion matches the table entry.
pub open spec fn matches_route(s: FixSuggestion, e: (Seq<char>, Seq<char>, bool, FixSeverity)) -> bool {
    s.command@ == e.0 && s.description@ == e.1 && s.auto_safe == e.2 && s.severity == e.3
}

fn entry(command: &str, description: &str, auto_safe: bool, severity: FixSeverity) -> (s: FixSuggestion)
    ensures
        matches_route(s, (command@, description@, auto_safe, severity)),
{
    FixSuggestion { command: owned(command), description: owned(description), auto_safe, severity }
}

/// Router from anomalies to repairs.
#[derive(Debug)]
pub struct FixRouter {}

impl FixRouter {
    /// A router holding the built-in routes.
    pub fn new() -> (r: FixRouter) {
        FixRouter {}
    }

    /// The repair for `anomaly`, if one is known.
    pub fn suggest(&self, anomaly: &AnomalyType) -> (r: Option<FixSuggestion>)
        ensures
            match route_table(*anomaly) {
                Some(e) => r matches Some(s) && matches_route(s, e),
                None => r is None,
            },
    {
        match anomaly {
            AnomalyType::DateDrift => Some(entry("sync --dates-only --force", "Sincroniza fechas YAML con mtime", true, FixSeverity::Medium)),
            AnomalyType::HashMismatch => Some(entry("sync --hashes-only", "Recalcula content_hash", true, FixSeverity::High)),
            AnomalyType::BrokenLink => Some(entry("links --fix-broken", "Repara enlaces rotos", false, FixSeverity::Critical)),
            AnomalyType::CaseSensitiveLink => Some(entry("links --fix-case", "Corrige mayúsculas/minúsculas", true, FixSeverity::High)),
            AnomalyType::NietosCountMismatch => Some(entry("sync --fix-all", "Sincroniza conteos de Nietos", true, FixSeverity::High)),
            AnomalyType::ChildrenCountMismatch => Some(entry("sync --children", "Recalcula children_count", true, FixSeverity::High)),
            AnomalyType::TrailingWhitespace => Some(entry("lint --fix", "Elimina espacios trailing", true, FixSeverity::Low)),
            AnomalyType::MissingFinalNewline => Some(entry("lint --fix", "Agrega newline final", true, FixSeverity::Low)),
            AnomalyType::CodeBlockNoLanguage => Some(entry("# MANUAL: Agregar lenguaje a ```", "Especificar lenguaje del código", false, FixSeverity::Low)),
            AnomalyType::MissingYamlFrontmatter => Some(entry("init --add-yaml", "Agrega frontmatter YAML", false, FixSeverity::Critical)),
            AnomalyType::BreadcrumbInconsistent => Some(entry("sync --breadcrumbs", "Regenera breadcrumbs", true, FixSeverity::Medium)),
            _ => None,
        }
    }

    /// The full command line for repairing `anomaly` in `target`: manual
    /// instructions (starting with `#`) as they are, otherwise
    /// `oc_diagdoc {command} --path {target}`.
    pub fn generate_command(&self, anomaly: &AnomalyType, target: &str) -> (r: Option<String>)
        ensures
            match route_table(*anomaly) {
                Some(e) => r matches Some(s) && s@ == (if e.0.len() > 0 && e.0[0] == '#' {
                    e.0
                } else {
                    "oc_diagdoc "@ + e.0 + " --path "@ + target@
                }),
                None => r is None,
            },
    {
        match self.suggest(anomaly) {
            Some(s) => {
                let c = chars_of(s.command.as_str());
                if c.len() > 0 && c[0] == '#' {
                    Some(s.command)
                } else {
                    let mut out = owned("oc_diagdoc ");
                    push_str(&mut out, s.command.as_str());
                    push_str(&mut out, " --path ");
                    push_str(&mut out, target);
                    Some(out)
                }
            },
            None => None,
        }
    }
}

impl Default for FixRouter {
    fn default() -> (r: FixRouter) {
        FixRouter::new()
    }
}

/// The name of an anomaly kind.
pub open spec fn anomaly_name(a: AnomalyType) -> Seq<char> {
    match a {
        AnomalyType::DateDrift => "DateDrift"@,
        AnomalyType::HashMismatch => "HashMismatch"@,
        AnomalyType::BrokenLink => "BrokenLink"@,
        AnomalyType::CaseSensitiveLink => "CaseSensitiveLink"@,
        AnomalyType::MissingYamlFrontmatter => "MissingYamlFrontmatter"@,
        AnomalyType::InvalidType => "InvalidType"@,
        AnomalyType::InvalidStatus => "InvalidStatus"@,
        AnomalyType::NietosCountMismatch => "NietosCountMismatch"@,
        AnomalyType::ChildrenCountMismatch => "ChildrenCountMismatch"@,
        AnomalyType::TrailingWhitespace => "TrailingWhitespace"@,
        AnomalyType::MissingFinalNewline => "MissingFinalNewline"@,
        AnomalyType::LineTooLong => "LineTooLong"@,
        AnomalyType::CodeBlockNoLanguage => "CodeBlockNoLanguage"@,
        AnomalyType::DuplicateHeader => "DuplicateHeader"@,
        AnomalyType::TableNoHeader => "TableNoHeader"@,
        AnomalyType::ImageNoAlt => "ImageNoAlt"@,
        AnomalyType::OrphanDocument => "OrphanDocument"@,
        AnomalyType::BreadcrumbInconsistent => "BreadcrumbInconsistent"@,
    }
}

impl AnomalyType {
    /// The name of the anomaly kind.
    pub fn name(&self) -> (s: &'static str)
        ensures
            s@ == anomaly_name(*self),
    {
        match self {
            AnomalyType::DateDrift => "DateDrift",
            AnomalyType::HashMismatch => "HashMismatch",
            AnomalyType::BrokenLink => "BrokenLink",
            AnomalyType::CaseSensitiveLink => "CaseSensitiveLink",
            AnomalyType::MissingYamlFrontmatter => "MissingYamlFrontmatter",
            AnomalyType::InvalidType => "InvalidType",
            AnomalyType::InvalidStatus => "InvalidStatus",
            AnomalyType::NietosCountMismatch => "NietosCountMismatch",
            AnomalyType::ChildrenCountMismatch => "ChildrenCountMismatch",
            AnomalyType::TrailingWhitespace => "TrailingWhitespace",
            AnomalyType::MissingFinalNewline => "MissingFinalNewline",
            AnomalyType::LineTooLong => "LineTooLong",
            AnomalyType::CodeBlockNoLanguage => "CodeBlockNoLanguage",
            AnomalyType::DuplicateHeader => "DuplicateHeader",
            AnomalyType::TableNoHeader => "TableNoHeader",
            AnomalyType::ImageNoAlt => "ImageNoAlt",
            AnomalyType::OrphanDocument => "OrphanDocument",
            AnomalyType::BreadcrumbInconsistent => "BreadcrumbInconsistent",
        }
    }
}

/// The summary lines of one anomaly kind seen `count` times: its icon,
/// count and name, then the repair command when one is known.
pub open spec fn summary_entry(a: AnomalyType, count: nat) -> Seq<char> {
    match route_table(a) {
        Some(e) => "│  "@ + severity_icon(e.3) + " "@ + spec_decimal(count) + " errores: "@ + anomaly_name(a)
            + "\n│     └─ FIX: "@ + e.0 + "\n│\n"@,
        None => "│  ⚪ "@ + spec_decimal(count) + " errores: "@ + anomaly_name(a) + "\n│\n"@,
    }
}

/// The entries of the anomaly kinds, in the given order.
pub open spec fn summary_entries(v: Seq<(AnomalyType, nat)>) -> Seq<char>
    decreases v.len(),
{
    if v.len() == 0 { Seq::empty() } else { summary_entries(v.drop_last()) + summary_entry(v.last().0, v.last().1) }
}

/// The summary of the anomalies found (each kind with how many times it
/// was seen): a framed list with the repair of each kind; nothing when none
/// was found.
pub open spec fn spec_fix_summary(v: Seq<(AnomalyType, nat)>) -> Seq<char> {
    if v.len() == 0 {
        Seq::empty()
    } else {
        "\n╭─────────────────────────────────────────────────────────────╮\n│  📋 RESUMEN DE ANOMALÍAS DETECTADAS                         │\n├─────────────────────────────────────────────────────────────┤\n"@ + summary_entries(v) + "╰─────────────────────────────────────────────────────────────╯\n\n💡 Ejecuta los comandos sugeridos para corregir las anomalías.\n"@
    }
}

/// The kinds with the number of their instances.
pub open spec fn counts_view(v: Seq<(AnomalyType, Vec<String>)>) -> Seq<(AnomalyType, nat)> {
    v.map_values(|x: (AnomalyType, Vec<String>)| (x.0, x.1@.len()))
}

/// The summary of the anomalies found, each kind with its instances.
pub fn fix_summary(anomalies: &Vec<(AnomalyType, Vec<String>)>) -> (s: String)
    ensures
        s@ == spec_fix_summary(counts_view(anomalies@)),
{
    let ghost cv = counts_view(anomalies@);
    if anomalies.len() == 0 {
        return String::new();
    }
    let router = FixRouter::new();
    let mut s = owned("\n╭─────────────────────────────────────────────────────────────╮\n│  📋 RESUMEN DE ANOMALÍAS DETECTADAS                         │\n├─────────────────────────────────────────────────────────────┤\n");
    let ghost head = s@;
    let mut i: usize = 0;
    assert(cv.subrange(0, 0) =~= Seq::<(AnomalyType, nat)>::empty());
    assert(s@ =~= head + summary_entries(cv.subrange(0, 0)));
    while i < anomalies.len()
        invariant
            i <= anomalies@.len(),
            cv == counts_view(anomalies@),
            s@ == head + summary_entries(cv.subrange(0, i as int)),
        decreases anomalies@.len() - i,
    {
        let ghost sub = cv.subrange(0, i + 1);
        assert(sub.drop_last() =~= cv.subrange(0, i as int));
        assert(sub.last() == (anomalies@[i as int].0, anomalies@[i as int].1@.len()));
        let a = anomalies[i].0;
        let count = anomalies[i].1.len();
        let ghost s0 = s@;
        match router.suggest(&a) {
            Some(sug) => {
                push_str(&mut s, "│  ");
                push_str(&mut s, sug.severity.icon());
                push_str(&mut s, " ");
                push_str(&mut s, decimal(count).as_str());
                push_str(&mut s, " errores: ");
                push_str(&mut s, a.name());
                push_str(&mut s, "\n│     └─ FIX: ");
                push_str(&mut s, sug.command.as_str());
                push_str(&mut s, "\n│\n");
            },
            None => {
                push_str(&mut s, "│  ⚪ ");
                push_str(&mut s, decimal(count).as_str());
                push_str(&mut s, " errores: ");
                push_str(&mut s, a.name());
                push_str(&mut s, "\n│\n");
            },
        }
        assert(s@ =~= s0 + summary_entry(a, count as nat));
        i = i + 1;
    }
    assert(cv.subrange(0, anomalies@.len() as int) =~= cv);
    push_str(&mut s, "╰─────────────────────────────────────────────────────────────╯\n\n💡 Ejecuta los comandos sugeridos para corregir las anomalías.\n");
    s
}

} // verus!
