//! Project audit: findings with a severity, and a score.

use vstd::prelude::*;
use crate::clock::{has_shape, second_shape, utc_now_second};
use crate::text::{chars_of, concat2, decimal, owned, push_str, spec_decimal, spec_words, strs, words};
use crate::commands::links::{Link, LinkStatus, LinksResult};
use crate::commands::lint::{count_severity, LintIssue, LintResult, LintSeverity};

verus! {

/// Category of a finding.
#[derive(Debug, Clone, Copy, PartialEq, Eq, Structural)]
pub enum AuditCategory {
    Structure,
    Content,
    Metadata,
    Links,
    Performance,
    Security,
}

/// One finding; `severity` goes from 1 (minor) to 5 (critical).
#[derive(Debug, Clone)]
pub struct AuditFinding {
    pub category: AuditCategory,
    pub severity: u8,
    pub title: String,
    pub description: String,
    pub recommendation: String,
    pub affected_files: Vec<String>,
}

/// Outcome of an audit.
#[derive(Debug, Clone)]
pub struct AuditResult {
    pub timestamp: String,
    pub findings: Vec<AuditFinding>,
    pub total_files: usize,
    pub score: u8,
}

/// The score left after the findings: 100, less twice the severity of each
/// finding, never below 0.
pub open spec fn spec_score(fs: Seq<AuditFinding>) -> int
    decreases fs.len(),
{
    if fs.len() == 0 {
        100
    } else {
        let prev = spec_score(fs.drop_last());
        let pen = 2 * fs.last().severity;
        if prev >= pen { prev - pen } else { 0 }
    }
}

/// Minutes estimated to resolve a finding of the given severity.
pub open spec fn spec_effort(severity: u8) -> u32 {
    if severity == 5 { 60 } else if severity == 4 { 30 } else if severity == 3 { 15 }
    else if severity == 2 { 5 } else { 2 }
}

/// The findings of severity `k` down to 0, each level in original order:
/// a stable sort by decreasing severity.
pub open spec fn by_severity_from(fs: Seq<AuditFinding>, k: int) -> Seq<AuditFinding>
    decreases 256 - k,
{
    if k >= 256 || k < 0 {
        Seq::empty()
    } else {
        by_severity_from(fs, k + 1) + fs.filter(|f: AuditFinding| f.severity == k)
    }
}

/// The findings sorted by decreasing severity, stable.
pub open spec fn spec_sorted_by_severity(fs: Seq<AuditFinding>) -> Seq<AuditFinding> {
    by_severity_from(fs, 0)
}

/// One prioritized recommendation line:
/// `"<rank>. [S<severity>] <title> (~<effort>min): <recommendation>"`.
pub open spec fn recommendation_line(rank: nat, f: AuditFinding) -> Seq<char> {
    spec_decimal(rank) + ". [S"@ + spec_decimal(f.severity as nat) + "] "@ + f.title@ + " (~"@
        + spec_decimal(spec_effort(f.severity) as nat) + "min): "@ + f.recommendation@
}

/// The findings behind references.
pub open spec fn derefs(v: Seq<&AuditFinding>) -> Seq<AuditFinding> {
    v.map_values(|f: &AuditFinding| *f)
}

impl AuditResult {
    /// The score agrees with the findings.
    pub open spec fn wf(&self) -> bool {
        self.score == spec_score(self.findings@)
    }

    /// An empty audit stamped with the current time; the score starts at 100.
    pub fn new() -> (r: AuditResult)
        ensures
            r.wf(),
            r.findings@.len() == 0,
            r.total_files == 0,
            r.score == 100,
            has_shape(r.timestamp@, second_shape()),
    {
        AuditResult {
            timestamp: utc_now_second(),
            findings: Vec::new(),
            total_files: 0,
            score: 100,
        }
    }

    /// Adds a finding; the score drops by twice its severity, saturating at 0.
    pub fn add_finding(&mut self, finding: AuditFinding)
        requires
            finding.severity <= 127,
        ensures
            final(self).findings@ == old(self).findings@.push(finding),
            final(self).score == (if old(self).score >= 2 * finding.severity {
                old(self).score - 2 * finding.severity
            } else {
                0
            }),
            final(self).timestamp == old(self).timestamp,
            final(self).total_files == old(self).total_files,
            old(self).wf() ==> final(self).wf(),
    {
        let penalty: u8 = finding.severity * 2;
        self.score = self.score.saturating_sub(penalty);
        let ghost before = self.findings@;
        self.findings.push(finding);
        assert(self.findings@.drop_last() =~= before);
    }

    /// Number of findings of severity 4 or more.
    pub fn critical_count(&self) -> (n: usize)
        ensures
            n == self.findings@.filter(|f: AuditFinding| f.severity >= 4).len(),
    {
        let mut n: usize = 0;
        let mut i: usize = 0;
        while i < self.findings.len()
            invariant
                i <= self.findings@.len(),
                n == self.findings@.subrange(0, i as int).filter(|f: AuditFinding| f.severity >= 4).len(),
                n <= i,
            decreases self.findings@.len() - i,
        {
            proof {
                let sub = self.findings@.subrange(0, i + 1);
                assert(sub.drop_last() =~= self.findings@.subrange(0, i as int));
                reveal_with_fuel(Seq::<_>::filter, 1);
            }
            if self.findings[i].severity >= 4 {
                n = n + 1;
            }
            i = i + 1;
        }
        assert(self.findings@.subrange(0, self.findings@.len() as int) =~= self.findings@);
        n
    }

    /// The findings of one category, in order.
    pub fn by_category(&self, cat: &AuditCategory) -> (r: Vec<&AuditFinding>)
        ensures
            derefs(r@) == self.findings@.filter(|f: AuditFinding| f.category == *cat),
    {
        let mut r: Vec<&AuditFinding> = Vec::new();
        let mut i: usize = 0;
        while i < self.findings.len()
            invariant
                i <= self.findings@.len(),
                derefs(r@) == self.findings@.subrange(0, i as int).filter(|f: AuditFinding| f.category == *cat),
            decreases self.findings@.len() - i,
        {
            proof {
                let sub = self.findings@.subrange(0, i + 1);
                assert(sub.drop_last() =~= self.findings@.subrange(0, i as int));
                reveal_with_fuel(Seq::<_>::filter, 1);
            }
            if self.findings[i].category == *cat {
                let ghost r0 = r@;
                r.push(&self.findings[i]);
                assert(derefs(r@) =~= derefs(r0).push(self.findings@[i as int]));
            }
            i = i + 1;
        }
        assert(self.findings@.subrange(0, self.findings@.len() as int) =~= self.findings@);
        r
    }

    /// The findings by decreasing severity; equal severities keep their order.
    pub fn sorted_by_severity(&self) -> (r: Vec<&AuditFinding>)
        ensures
            derefs(r@) == spec_sorted_by_severity(self.findings@),
    {
        let fs = &self.findings;
        let mut r: Vec<&AuditFinding> = Vec::new();
        let mut k: u16 = 256;
        while k > 0
            invariant
                k <= 256,
                derefs(r@) == by_severity_from(fs@, k as int),
            decreases k,
        {
            k = k - 1;
            let ghost prev = derefs(r@);
            let mut i: usize = 0;
            while i < fs.len()
                invariant
                    k < 256,
                    i <= fs@.len(),
                    derefs(r@) == prev + fs@.subrange(0, i as int).filter(|f: AuditFinding| f.severity == k),
                decreases fs@.len() - i,
            {
                proof {
                    let sub = fs@.subrange(0, i + 1);
                    assert(sub.drop_last() =~= fs@.subrange(0, i as int));
                    reveal_with_fuel(Seq::<_>::filter, 1);
                }
                if fs[i].severity as u16 == k {
                    let ghost r0 = r@;
                    r.push(&fs[i]);
                    assert(derefs(r@) =~= derefs(r0).push(fs@[i as int]));
                }
                i = i + 1;
            }
            assert(fs@.subrange(0, fs@.len() as int) =~= fs@);
        }
        r
    }

    /// Minutes estimated to resolve a finding: 60 for severity 5, 30 for 4,
    /// 15 for 3, 5 for 2, 2 otherwise.
    pub fn estimate_effort(finding: &AuditFinding) -> (m: u32)
        ensures
            m == spec_effort(finding.severity),
    {
        match finding.severity {
            5 => 60,
            4 => 30,
            3 => 15,
            2 => 5,
            _ => 2,
        }
    }

    /// One line per finding, by decreasing severity, numbered from 1.
    pub fn prioritized_recommendations(&self) -> (r: Vec<String>)
        requires
            self.findings@.len() < usize::MAX,
        ensures
            r@.len() == spec_sorted_by_severity(self.findings@).len(),
            forall|i: int| 0 <= i < r@.len() ==> (#[trigger] r@[i])@
                == recommendation_line((i + 1) as nat, spec_sorted_by_severity(self.findings@)[i]),
    {
        let sorted = self.sorted_by_severity();
        proof {
            lemma_sorted_len(self.findings@, 0);
        }
        let mut r: Vec<String> = Vec::new();
        let mut i: usize = 0;
        while i < sorted.len()
            invariant
                i <= sorted@.len(),
                derefs(sorted@) == spec_sorted_by_severity(self.findings@),
                sorted@.len() <= self.findings@.len(),
                self.findings@.len() < usize::MAX,
                r@.len() == i,
                forall|j: int| 0 <= j < i ==> (#[trigger] r@[j])@
                    == recommendation_line((j + 1) as nat, derefs(sorted@)[j]),
            decreases sorted@.len() - i,
        {
            let f = sorted[i];
            let effort = Self::estimate_effort(f);
            let mut s = decimal(i + 1);
            push_str(&mut s, ". [S");
            push_str(&mut s, decimal(f.severity as usize).as_str());
            push_str(&mut s, "] ");
            push_str(&mut s, f.title.as_str());
            push_str(&mut s, " (~");
            push_str(&mut s, decimal(effort as usize).as_str());
            push_str(&mut s, "min): ");
            push_str(&mut s, f.recommendation.as_str());
            assert(s@ =~= recommendation_line((i + 1) as nat, derefs(sorted@)[i as int]));
            r.push(s);
            i = i + 1;
        }
        r
    }
}

/// The sorted findings are no more than the findings.
proof fn lemma_sorted_len(fs: Seq<AuditFinding>, k: int)
    requires
        0 <= k <= 256,
    ensures
        by_severity_from(fs, k).len() <= fs.filter(|f: AuditFinding| k <= f.severity).len(),
    decreases 256 - k,
{
    reveal_with_fuel(Seq::<_>::filter, 1);
    if k < 256 {
        lemma_sorted_len(fs, k + 1);
        lemma_filter_split(fs, k);
    } else {
        assert(fs.filter(|f: AuditFinding| k <= f.severity).len() >= 0);
    }
    fs.lemma_filter_len(|f: AuditFinding| k <= f.severity);
}

/// Splitting the findings of severity at least `k` into those of severity
/// `k` and those above.
proof fn lemma_filter_split(fs: Seq<AuditFinding>, k: int)
    ensures
        fs.filter(|f: AuditFinding| k <= f.severity).len()
            == fs.filter(|f: AuditFinding| k + 1 <= f.severity).len() + fs.filter(|f: AuditFinding| f.severity == k).len(),
    decreases fs.len(),
{
    reveal_with_fuel(Seq::<_>::filter, 1);
    if fs.len() > 0 {
        lemma_filter_split(fs.drop_last(), k);
    }
}

impl Default for AuditResult {
    fn default() -> (r: AuditResult)
        ensures
            r.wf(),
            r.findings@.len() == 0,
            r.total_files == 0,
            r.score == 100,
            has_shape(r.timestamp@, second_shape()),
    {
        AuditResult::new()
    }
}

/// Options of the audit command.
#[derive(Debug, Clone)]
pub struct AuditCommand {
    pub path: Option<String>,
    pub json: bool,
    pub recommendations: bool,
    pub export: Option<String>,
    pub verbose: bool,
}

// ─────────────────────────────────────────────────────────────────────────
// Assembling the findings
// ─────────────────────────────────────────────────────────────────────────

/// A finding as (category, severity, title, description, recommendation,
/// affected files).
pub type FindingView = (AuditCategory, u8, Seq<char>, Seq<char>, Seq<char>, Seq<Seq<char>>);

/// The view of a finding.
pub open spec fn finding_view(f: AuditFinding) -> FindingView {
    (f.category, f.severity, f.title@, f.description@, f.recommendation@, strs(f.affected_files@))
}

/// The views of findings.
pub open spec fn findings_view(v: Seq<AuditFinding>) -> Seq<FindingView> {
    v.map_values(|f: AuditFinding| finding_view(f))
}

/// At most the first ten.
pub open spec fn first_ten(s: Seq<Seq<char>>) -> Seq<Seq<char>> {
    if s.len() <= 10 { s } else { s.subrange(0, 10) }
}

/// The sources of the links in a state, in order.
pub open spec fn sources_with(ls: Seq<Link>, st: LinkStatus) -> Seq<Seq<char>>
    decreases ls.len(),
{
    if ls.len() == 0 {
        Seq::empty()
    } else {
        let p = sources_with(ls.drop_last(), st);
        if ls.last().status == st { p.push(ls.last().source@) } else { p }
    }
}

/// The files of the issues of a severity, in order.
pub open spec fn files_with(is: Seq<LintIssue>, sv: LintSeverity) -> Seq<Seq<char>>
    decreases is.len(),
{
    if is.len() == 0 {
        Seq::empty()
    } else {
        let p = files_with(is.drop_last(), sv);
        if is.last().severity == sv { p.push(is.last().file@) } else { p }
    }
}

/// The paths of the readable documents with fewer than 100 words.
pub open spec fn low_content(docs: Seq<(Seq<char>, Option<Seq<char>>)>) -> Seq<Seq<char>>
    decreases docs.len(),
{
    if docs.len() == 0 {
        Seq::empty()
    } else {
        let p = low_content(docs.drop_last());
        match docs.last().1 {
            Some(c) => if spec_words(c).len() < 100 { p.push(docs.last().0) } else { p },
            None => p,
        }
    }
}

/// The findings of a link analysis: broken links (severity 4) and links
/// with a full path (severity 3), each naming the first ten sources.
pub open spec fn link_findings(lr: LinksResult) -> Seq<FindingView> {
    (if lr.total_broken > 0 {
        seq![(AuditCategory::Links, 4u8, spec_decimal(lr.total_broken as nat) + " enlaces rotos detectados"@,
            "Existen enlaces que apuntan a documentos inexistentes."@,
            "Ejecutar `oc_diagdoc links --broken-only` para listar y corregir."@,
            first_ten(sources_with(lr.links@, LinkStatus::Broken)))]
    } else {
        Seq::empty()
    }) + (if lr.total_nonstandard > 0 {
        seq![(AuditCategory::Links, 3u8, spec_decimal(lr.total_nonstandard as nat) + " enlaces con path completo (no-estándar)"@,
            "Los enlaces wiki deberían usar solo el nombre del archivo, sin path."@,
            "Cambiar [[Proyecto/Datos/doc]] a [[doc]]"@,
            first_ten(sources_with(lr.links@, LinkStatus::NonStandard)))]
    } else {
        Seq::empty()
    })
}

/// The findings of a lint run: errors (severity 4, naming the first ten
/// files) and warnings (severity 2).
pub open spec fn lint_findings(lr: LintResult) -> Seq<FindingView> {
    let e = count_severity(lr.issues@, LintSeverity::Error);
    let w = count_severity(lr.issues@, LintSeverity::Warning);
    (if e > 0 {
        seq![(AuditCategory::Content, 4u8, spec_decimal(e) + " errores de formato detectados"@,
            "Archivos con problemas de estructura o campos faltantes."@,
            "Ejecutar `oc_diagdoc lint --errors-only` para detalles."@,
            first_ten(files_with(lr.issues@, LintSeverity::Error)))]
    } else {
        Seq::empty()
    }) + (if w > 0 {
        seq![(AuditCategory::Content, 2u8, spec_decimal(w) + " warnings de formato"@,
            "Problemas menores de formato o estilo."@,
            "Ejecutar `oc_diagdoc lint` para ver todos los warnings."@,
            Seq::<Seq<char>>::empty())]
    } else {
        Seq::empty()
    })
}

/// The finding on documents with little content, when there are more
/// than ten of them.
pub open spec fn content_findings(docs: Seq<(Seq<char>, Option<Seq<char>>)>) -> Seq<FindingView> {
    let low = low_content(docs);
    if low.len() > 10 {
        seq![(AuditCategory::Content, 3u8, spec_decimal(low.len()) + " documentos con bajo contenido (<100 palabras)"@,
            "Documentos que parecen ser placeholders o están incompletos."@,
            "Revisar y completar el contenido de estos documentos."@,
            first_ten(low))]
    } else {
        Seq::empty()
    }
}

/// All findings of an audit, in order: links, lint, content.
pub open spec fn spec_audit_findings(links: Option<LinksResult>, lint: Option<LintResult>, docs: Seq<(Seq<char>, Option<Seq<char>>)>) -> Seq<FindingView> {
    (match links { Some(l) => link_findings(l), None => Seq::empty() })
        + (match lint { Some(l) => lint_findings(l), None => Seq::empty() })
        + content_findings(docs)
}

/// The views of (path, content) pairs.
pub open spec fn docs_view(d: Seq<(String, Option<String>)>) -> Seq<(Seq<char>, Option<Seq<char>>)> {
    d.map_values(|x: (String, Option<String>)| (x.0@, match x.1 { Some(c) => Some(c@), None => None }))
}

/// The first ten sources of links in a state.
fn sources_exec(ls: &Vec<Link>, st: LinkStatus) -> (r: Vec<String>)
    ensures
        strs(r@) == first_ten(sources_with(ls@, st)),
{
    let mut r: Vec<String> = Vec::new();
    let mut i: usize = 0;
    while i < ls.len()
        invariant
            i <= ls@.len(),
            strs(r@) == first_ten(sources_with(ls@.subrange(0, i as int), st)),
        decreases ls@.len() - i,
    {
        let ghost sub = ls@.subrange(0, i + 1);
        assert(sub.drop_last() =~= ls@.subrange(0, i as int));
        let ghost prev = sources_with(ls@.subrange(0, i as int), st);
        if ls[i].status == st {
            if r.len() < 10 {
                let ghost r0 = strs(r@);
                r.push(owned(ls[i].source.as_str()));
                assert(strs(r@) =~= r0.push(ls@[i as int].source@));
                assert(prev.push(ls@[i as int].source@).len() <= 10);
            } else {
                assert(first_ten(prev.push(ls@[i as int].source@)) =~= first_ten(prev));
            }
        }
        i = i + 1;
    }
    assert(ls@.subrange(0, ls@.len() as int) =~= ls@);
    r
}

/// The first ten files of issues of a severity.
fn files_exec(is: &Vec<LintIssue>, sv: LintSeverity) -> (r: Vec<String>)
    ensures
        strs(r@) == first_ten(files_with(is@, sv)),
{
    let mut r: Vec<String> = Vec::new();
    let mut i: usize = 0;
    while i < is.len()
        invariant
            i <= is@.len(),
            strs(r@) == first_ten(files_with(is@.subrange(0, i as int), sv)),
        decreases is@.len() - i,
    {
        let ghost sub = is@.subrange(0, i + 1);
        assert(sub.drop_last() =~= is@.subrange(0, i as int));
        let ghost prev = files_with(is@.subrange(0, i as int), sv);
        if is[i].severity == sv {
            if r.len() < 10 {
                let ghost r0 = strs(r@);
                r.push(owned(is[i].file.as_str()));
                assert(strs(r@) =~= r0.push(is@[i as int].file@));
                assert(prev.push(is@[i as int].file@).len() <= 10);
            } else {
                assert(first_ten(prev.push(is@[i as int].file@)) =~= first_ten(prev));
            }
        }
        i = i + 1;
    }
    assert(is@.subrange(0, is@.len() as int) =~= is@);
    r
}

/// The paths of the readable documents with fewer than 100 words.
fn low_content_exec(docs: &Vec<(String, Option<String>)>) -> (r: Vec<String>)
    ensures
        strs(r@) == low_content(docs_view(docs@)),
{
    let ghost d = docs_view(docs@);
    let mut r: Vec<String> = Vec::new();
    let mut i: usize = 0;
    while i < docs.len()
        invariant
            i <= docs@.len(),
            d == docs_view(docs@),
            strs(r@) == low_content(d.subrange(0, i as int)),
        decreases docs@.len() - i,
    {
        let ghost sub = d.subrange(0, i + 1);
        assert(sub.drop_last() =~= d.subrange(0, i as int));
        assert(sub.last() == d[i as int]);
        match &docs[i].1 {
            Some(c) => {
                let w = words(&chars_of(c.as_str()));
                assert(strs(w@).len() == w@.len());
                if w.len() < 100 {
                    let ghost r0 = strs(r@);
                    r.push(owned(docs[i].0.as_str()));
                    assert(strs(r@) =~= r0.push(d[i as int].0));
                }
            },
            None => {},
        }
        i = i + 1;
    }
    assert(d.subrange(0, docs@.len() as int) =~= d);
    r
}

/// A finding.
fn finding(category: AuditCategory, severity: u8, count: usize, title: &str, description: &str, recommendation: &str, affected: Vec<String>) -> (f: AuditFinding)
    ensures
        finding_view(f) == (category, severity, spec_decimal(count as nat) + title@, description@, recommendation@, strs(affected@)),
{
    let t = concat2(decimal(count).as_str(), title);
    AuditFinding {
        category,
        severity,
        title: t,
        description: owned(description),
        recommendation: owned(recommendation),
        affected_files: affected,
    }
}

impl AuditCommand {
    /// The audit of the documents, given as (path, content when it could be
    /// read), from the link analysis and the lint run when they could be
    /// made: the findings in order, the score they leave, and the number of
    /// files.
    pub fn run(&self, links: &Option<LinksResult>, lint: &Option<LintResult>, docs: &Vec<(String, Option<String>)>) -> (r: AuditResult)
        ensures
            findings_view(r.findings@) == spec_audit_findings(*links, *lint, docs_view(docs@)),
            r.total_files == docs@.len(),
            r.wf(),
            has_shape(r.timestamp@, second_shape()),
    {
        let mut result = AuditResult::new();
        result.total_files = docs.len();
        let ghost mut acc: Seq<FindingView> = Seq::empty();
        assert(findings_view(result.findings@) =~= acc);
        match links {
            Some(lr) => {
                if lr.total_broken > 0 {
                    let f = finding(AuditCategory::Links, 4, lr.total_broken, " enlaces rotos detectados",
                        "Existen enlaces que apuntan a documentos inexistentes.",
                        "Ejecutar `oc_diagdoc links --broken-only` para listar y corregir.",
                        sources_exec(&lr.links, LinkStatus::Broken));
                    Self::push_finding(&mut result, f);
                }
                if lr.total_nonstandard > 0 {
                    let f = finding(AuditCategory::Links, 3, lr.total_nonstandard, " enlaces con path completo (no-estándar)",
                        "Los enlaces wiki deberían usar solo el nombre del archivo, sin path.",
                        "Cambiar [[Proyecto/Datos/doc]] a [[doc]]",
                        sources_exec(&lr.links, LinkStatus::NonStandard));
                    Self::push_finding(&mut result, f);
                }
                assert(findings_view(result.findings@) =~= link_findings(*lr));
            },
            None => {},
        }
        let ghost after_links = findings_view(result.findings@);
        match lint {
            Some(lr) => {
                let e = lr.error_count();
                let w = lr.warning_count();
                if e > 0 {
                    let f = finding(AuditCategory::Content, 4, e, " errores de formato detectados",
                        "Archivos con problemas de estructura o campos faltantes.",
                        "Ejecutar `oc_diagdoc lint --errors-only` para detalles.",
                        files_exec(&lr.issues, LintSeverity::Error));
                    Self::push_finding(&mut result, f);
                }
                if w > 0 {
                    let none: Vec<String> = Vec::new();
                    assert(strs(none@) =~= Seq::<Seq<char>>::empty());
                    let f = finding(AuditCategory::Content, 2, w, " warnings de formato",
                        "Problemas menores de formato o estilo.",
                        "Ejecutar `oc_diagdoc lint` para ver todos los warnings.",
                        none);
                    Self::push_finding(&mut result, f);
                }
                assert(findings_view(result.findings@) =~= after_links + lint_findings(*lr));
            },
            None => {},
        }
        let ghost after_lint = findings_view(result.findings@);
        let low = low_content_exec(docs);
        if low.len() > 10 {
            let n = low.len();
            let mut first: Vec<String> = Vec::new();
            let mut i: usize = 0;
            while i < 10
                invariant
                    i <= 10,
                    low@.len() > 10,
                    strs(first@) =~= strs(low@).subrange(0, i as int),
                decreases 10 - i,
            {
                let ghost f0 = strs(first@);
                first.push(owned(low[i].as_str()));
                assert(strs(first@) =~= f0.push(low@[i as int]@));
                assert(strs(low@).subrange(0, i + 1) =~= strs(low@).subrange(0, i as int).push(low@[i as int]@));
                i = i + 1;
            }
            let f = finding(AuditCategory::Content, 3, n, " documentos con bajo contenido (<100 palabras)",
                "Documentos que parecen ser placeholders o están incompletos.",
                "Revisar y completar el contenido de estos documentos.",
                first);
            Self::push_finding(&mut result, f);
        }
        assert(findings_view(result.findings@) =~= after_lint + content_findings(docs_view(docs@)));
        result
    }

    /// Adds a finding of severity at most 5.
    fn push_finding(result: &mut AuditResult, f: AuditFinding)
        requires
            f.severity <= 5,
        ensures
            findings_view(final(result).findings@) == findings_view(old(result).findings@).push(finding_view(f)),
            final(result).total_files == old(result).total_files,
            final(result).timestamp == old(result).timestamp,
            old(result).wf() ==> final(result).wf(),
    {
        let ghost v0 = findings_view(result.findings@);
        result.add_finding(f);
        assert(findings_view(result.findings@) =~= v0.push(finding_view(f)));
    }
}

} // verus!
