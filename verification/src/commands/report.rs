//! Reports on the documentation.

use vstd::prelude::*;
use crate::clock::{has_shape, minute_shape, utc_now_minute};
use crate::commands::readme::{bump, bump_exec, counts_view, ModCount};
use crate::fields::{spec_yaml_field, yaml_field};
use crate::patterns::{captures_all, spec_captures_all, RE_WIKI_LINK_WITH_ALIAS};
use crate::text::{
    chars_of, decimal, digits_value_upto, owned, push_str, repeat_char, slice_to_vec, spec_decimal,
    spec_find, spec_parse_unsigned, spec_repeat, spec_split, spec_starts_with, spec_word_count,
    split, starts_with, str_eq, string_of, strs, word_count, find, parse_usize,
};

verus! {

/// Output format of a report.
#[derive(Debug, Clone, Copy, PartialEq, Eq, Structural)]
pub enum ReportFormat {
    Markdown,
    Html,
    Json,
    Pdf,
}

/// A section of a report.
#[derive(Debug, Clone)]
pub struct ReportSection {
    pub title: String,
    pub content: String,
    pub level: u8,
}

/// A report.
#[derive(Debug, Clone)]
pub struct Report {
    pub title: String,
    pub sections: Vec<ReportSection>,
    pub generated_at: String,
}

/// The Markdown of the sections.
pub open spec fn sections_md(ss: Seq<ReportSection>) -> Seq<char>
    decreases ss.len(),
{
    if ss.len() == 0 {
        Seq::empty()
    } else {
        let s = ss.last();
        sections_md(ss.drop_last()) + spec_repeat('#', s.level as nat) + " "@ + s.title@ + "\n\n"@ + s.content@ + "\n\n"@
    }
}

impl Report {
    /// An empty report stamped with the current time.
    pub fn new(title: &str) -> (r: Report)
        ensures
            r.title@ == title@,
            r.sections@.len() == 0,
            has_shape(r.generated_at@, minute_shape()),
    {
        Report { title: owned(title), sections: Vec::new(), generated_at: utc_now_minute() }
    }

    pub fn add_section(&mut self, title: &str, content: &str, level: u8)
        ensures
            final(self).title == old(self).title,
            final(self).generated_at == old(self).generated_at,
            final(self).sections@.len() == old(self).sections@.len() + 1,
            final(self).sections@.drop_last() == old(self).sections@,
            final(self).sections@.last().title@ == title@,
            final(self).sections@.last().content@ == content@,
            final(self).sections@.last().level == level,
    {
        let ghost before = self.sections@;
        self.sections.push(ReportSection { title: owned(title), content: owned(content), level });
        assert(self.sections@.drop_last() =~= before);
    }

    /// The report as Markdown: title, generation time, then each section
    /// with a heading of its level.
    pub fn to_markdown(&self) -> (s: String)
        ensures
            s@ == "# "@ + self.title@ + "\n\n"@ + "*Generado: "@ + self.generated_at@ + "*\n\n"@ + sections_md(self.sections@),
    {
        let mut out = owned("# ");
        push_str(&mut out, self.title.as_str());
        push_str(&mut out, "\n\n");
        push_str(&mut out, "*Generado: ");
        push_str(&mut out, self.generated_at.as_str());
        push_str(&mut out, "*\n\n");
        let ghost head = out@;
        let mut i: usize = 0;
        while i < self.sections.len()
            invariant
                i <= self.sections@.len(),
                out@ == head + sections_md(self.sections@.subrange(0, i as int)),
            decreases self.sections@.len() - i,
        {
            let ghost sub = self.sections@.subrange(0, i + 1);
            assert(sub.drop_last() =~= self.sections@.subrange(0, i as int));
            let s = &self.sections[i];
            push_str(&mut out, repeat_char('#', s.level as usize).as_str());
            push_str(&mut out, " ");
            push_str(&mut out, s.title.as_str());
            push_str(&mut out, "\n\n");
            push_str(&mut out, s.content.as_str());
            push_str(&mut out, "\n\n");
            assert(out@ =~= head + sections_md(sub));
            i = i + 1;
        }
        assert(self.sections@.subrange(0, self.sections@.len() as int) =~= self.sections@);
        out
    }
}

/// Options of the report command.
#[derive(Debug, Clone)]
pub struct ReportCommand {
    pub path: Option<String>,
    pub format: String,
    pub output: Option<String>,
    pub report_type: String,
}

/// Files left out of reports: names starting with `TRAP_`, `AUTOTEST_` or `TEST_`.
pub open spec fn is_test_file(name: Seq<char>) -> bool {
    spec_starts_with(name, "TRAP_"@) || spec_starts_with(name, "AUTOTEST_"@) || spec_starts_with(name, "TEST_"@)
}

/// The body of a document for the word count: after a front matter opened
/// by `---`, the text after the closing `---`.
pub open spec fn report_body(c: Seq<char>) -> Seq<char> {
    if spec_starts_with(c, "---"@) {
        match spec_find(c.skip(3), "---"@) {
            Some(e) => c.skip(3 + e + 3),
            None => c,
        }
    } else {
        c
    }
}

/// The module of a document: the first dot-separated part of its `id`.
pub open spec fn report_module(c: Seq<char>) -> Option<Seq<char>> {
    match spec_yaml_field(c, "id"@) {
        Some(id) => Some(spec_split(id, '.')[0]),
        None => None,
    }
}

/// Totals over the documents: words of the bodies, wiki links, and the
/// modules with their document counts (first-appearance order).
pub open spec fn report_totals(cs: Seq<Seq<char>>) -> (nat, nat, Seq<ModCount>)
    decreases cs.len(),
{
    if cs.len() == 0 {
        (0, 0, Seq::empty())
    } else {
        let p = report_totals(cs.drop_last());
        let c = cs.last();
        (p.0 + spec_word_count(report_body(c), false),
         p.1 + spec_captures_all(RE_WIKI_LINK_WITH_ALIAS@, c).len(),
         match report_module(c) { Some(m) => bump(p.2, m), None => p.2 })
    }
}

/// The numeric key modules are ordered by (0 when the name is not a number).
pub open spec fn module_key(m: Seq<char>) -> nat {
    match spec_parse_unsigned(m, u32::MAX as nat) { Some(v) => v, None => 0 }
}

/// `x` inserted after the last entry whose key is at most its own.
pub open spec fn insert_by_key(s: Seq<ModCount>, x: ModCount) -> Seq<ModCount>
    decreases s.len(),
{
    if s.len() == 0 || module_key(s.last().0) <= module_key(x.0) { s.push(x) } else { insert_by_key(s.drop_last(), x).push(s.last()) }
}

/// The modules by increasing numeric key, equal keys in original order.
pub open spec fn sort_by_key(s: Seq<ModCount>) -> Seq<ModCount>
    decreases s.len(),
{
    if s.len() == 0 { Seq::empty() } else { insert_by_key(sort_by_key(s.drop_last()), s.last()) }
}

/// The summary table.
pub open spec fn summary_table(docs: nat, words: nat, links: nat, mods: nat) -> Seq<char> {
    "| Métrica | Valor |\n|---------|-------|\n| Documentos | "@ + spec_decimal(docs)
        + " |\n| Palabras totales | "@ + spec_decimal(words)
        + " |\n| Promedio palabras/doc | "@ + spec_decimal(if docs == 0 { 0 } else { words / docs })
        + " |\n| Enlaces internos | "@ + spec_decimal(links)
        + " |\n| Módulos | "@ + spec_decimal(mods) + " |"@
}

/// The module list, one line per module.
pub open spec fn module_lines(s: Seq<ModCount>) -> Seq<char>
    decreases s.len(),
{
    if s.len() == 0 {
        Seq::empty()
    } else if s.len() == 1 {
        "- **Módulo "@ + s[0].0 + "**: "@ + spec_decimal(s[0].1) + " documentos"@
    } else {
        module_lines(s.drop_last()) + "\n"@ + "- **Módulo "@ + s.last().0 + "**: "@ + spec_decimal(s.last().1) + " documentos"@
    }
}

/// The health section.
pub open spec fn health_text(links: nat, docs: nat) -> Seq<char> {
    "- ✅ **Documentos con frontmatter válido**: 100%\n- 📊 **Cobertura de enlaces**: "@
        + spec_decimal(links) + " links en "@ + spec_decimal(docs) + " docs"@
}

/// The numeric key of a module name.
fn module_key_exec(m: &String) -> (k: u32)
    ensures
        k as nat == module_key(m@),
{
    let c = chars_of(m.as_str());
    let d = if c.len() > 0 && c[0] == '+' { slice_to_vec(&c, 1, c.len()) } else { slice_to_vec(&c, 0, c.len()) };
    assert(c@.subrange(0, c@.len() as int) =~= c@);
    assert(c@.len() > 0 ==> c@.subrange(1, c@.len() as int) =~= c@.drop_first());
    match digits_value_upto(&d, u32::MAX as u64) {
        Some(v) => v as u32,
        None => 0,
    }
}

/// Inserts after the last entry whose key is at most the new one's.
fn insert_by_key_exec(r: &mut Vec<(String, usize)>, x: (String, usize))
    ensures
        counts_view(final(r)@) == insert_by_key(counts_view(old(r)@), (x.0@, x.1 as nat)),
{
    let ghost xv = (x.0@, x.1 as nat);
    let kx = module_key_exec(&x.0);
    let mut p: usize = r.len();
    let ghost rv = counts_view(r@);
    assert(rv.subrange(0, rv.len() as int) =~= rv);
    assert(insert_by_key(rv, xv) =~= insert_by_key(rv.subrange(0, p as int), xv) + rv.subrange(p as int, rv.len() as int));
    while p > 0 && module_key_exec(&r[p - 1].0) > kx
        invariant
            p <= r@.len(),
            rv == counts_view(r@),
            xv == (x.0@, x.1 as nat),
            kx as nat == module_key(x.0@),
            insert_by_key(rv, xv) == insert_by_key(rv.subrange(0, p as int), xv) + rv.subrange(p as int, rv.len() as int),
        decreases p,
    {
        let ghost pre = rv.subrange(0, p as int);
        assert(pre.drop_last() =~= rv.subrange(0, p - 1));
        assert(pre.last() == rv[p - 1]);
        assert(rv[p - 1] == (r@[p - 1].0@, r@[p - 1].1 as nat));
        assert(insert_by_key(pre, xv) == insert_by_key(rv.subrange(0, p - 1), xv).push(pre.last()));
        assert(insert_by_key(rv.subrange(0, p - 1), xv).push(pre.last()) + rv.subrange(p as int, rv.len() as int)
            =~= insert_by_key(rv.subrange(0, p - 1), xv) + rv.subrange(p - 1, rv.len() as int));
        p = p - 1;
    }
    r.insert(p, x);
    proof {
        if p > 0 {
            assert(rv[p - 1] == (r@[p - 1].0@, r@[p - 1].1 as nat));
        }
    }
    assert(insert_by_key(rv.subrange(0, p as int), xv) == rv.subrange(0, p as int).push(xv));
    assert(counts_view(r@) =~= rv.subrange(0, p as int).push(xv) + rv.subrange(p as int, rv.len() as int));
}

/// The modules by increasing numeric key.
pub(crate) fn sort_by_key_exec(v: &Vec<(String, usize)>) -> (r: Vec<(String, usize)>)
    ensures
        counts_view(r@) == sort_by_key(counts_view(v@)),
{
    let ghost cv = counts_view(v@);
    let mut r: Vec<(String, usize)> = Vec::new();
    let mut i: usize = 0;
    while i < v.len()
        invariant
            i <= v@.len(),
            cv == counts_view(v@),
            counts_view(r@) == sort_by_key(cv.subrange(0, i as int)),
        decreases v@.len() - i,
    {
        let ghost sub = cv.subrange(0, i + 1);
        assert(sub.drop_last() =~= cv.subrange(0, i as int));
        insert_by_key_exec(&mut r, (v[i].0.clone(), v[i].1));
        i = i + 1;
    }
    assert(cv.subrange(0, v@.len() as int) =~= cv);
    r
}

/// The body of a document.
fn report_body_exec(c: &str) -> (b: Vec<char>)
    ensures
        b@ == report_body(c@),
{
    let cv = chars_of(c);
    let dash = chars_of("---");
    proof {
        reveal_strlit("---");
    }
    if starts_with(&cv, &dash) {
        let rest = slice_to_vec(&cv, 3, cv.len());
        assert(rest@ =~= c@.skip(3));
        match find(&rest, &dash) {
            Some(e) => {
                proof {
                    crate::text::lemma_find_from(rest@, dash@, 0);
                }
                let b = slice_to_vec(&cv, 3 + e + 3, cv.len());
                assert(b@ =~= c@.skip(3 + e + 3));
                b
            },
            None => cv,
        }
    } else {
        cv
    }
}

/// The module of a document.
fn report_module_exec(c: &str) -> (r: Option<String>)
    ensures
        match r {
            Some(m) => report_module(c@) == Some(m@),
            None => report_module(c@) is None,
        },
{
    match yaml_field(c, "id") {
        Some(id) => {
            let parts = split(&chars_of(id.as_str()), '.');
            proof {
                crate::text::lemma_split_nonempty(id@, '.');
                assert(crate::text::views(parts@)[0] == parts@[0]@);
            }
            Some(string_of(parts[0].as_slice()))
        },
        None => None,
    }
}

/// The summary table.
fn summary_exec(docs: usize, words: usize, links: usize, mods: usize) -> (s: String)
    ensures
        s@ == summary_table(docs as nat, words as nat, links as nat, mods as nat),
{
    let mut out = owned("| Métrica | Valor |\n|---------|-------|\n| Documentos | ");
    push_str(&mut out, decimal(docs).as_str());
    push_str(&mut out, " |\n| Palabras totales | ");
    push_str(&mut out, decimal(words).as_str());
    push_str(&mut out, " |\n| Promedio palabras/doc | ");
    push_str(&mut out, decimal(if docs == 0 { 0 } else { words / docs }).as_str());
    push_str(&mut out, " |\n| Enlaces internos | ");
    push_str(&mut out, decimal(links).as_str());
    push_str(&mut out, " |\n| Módulos | ");
    push_str(&mut out, decimal(mods).as_str());
    push_str(&mut out, " |");
    out
}

/// The module list.
fn module_lines_exec(s: &Vec<(String, usize)>) -> (out: String)
    ensures
        out@ == module_lines(counts_view(s@)),
{
    let ghost sv = counts_view(s@);
    let mut out = String::new();
    let mut i: usize = 0;
    while i < s.len()
        invariant
            i <= s@.len(),
            sv == counts_view(s@),
            out@ == module_lines(sv.subrange(0, i as int)),
        decreases s@.len() - i,
    {
        let ghost sub = sv.subrange(0, i + 1);
        assert(sub.drop_last() =~= sv.subrange(0, i as int));
        if i > 0 {
            push_str(&mut out, "\n");
        }
        push_str(&mut out, "- **Módulo ");
        push_str(&mut out, s[i].0.as_str());
        push_str(&mut out, "**: ");
        push_str(&mut out, decimal(s[i].1).as_str());
        push_str(&mut out, " documentos");
        assert(out@ =~= module_lines(sub));
        i = i + 1;
    }
    assert(sv.subrange(0, s@.len() as int) =~= sv);
    out
}

/// Totals of one more document stay within bounds.
pub open spec fn totals_fit(cs: Seq<Seq<char>>) -> bool {
    forall|i: int| 0 <= i <= cs.len() ==> #[trigger] report_totals(cs.subrange(0, i)).0 <= usize::MAX
        && report_totals(cs.subrange(0, i)).1 <= usize::MAX
}

impl ReportCommand {
    /// Whether a file is reported on.
    pub fn keeps_file(name: &str) -> (r: bool)
        ensures
            r == !is_test_file(name@),
    {
        let n = chars_of(name);
        !(starts_with(&n, &chars_of("TRAP_")) || starts_with(&n, &chars_of("AUTOTEST_")) || starts_with(&n, &chars_of("TEST_")))
    }

    /// The report on the documents (their contents, test files already left
    /// out): executive summary, distribution by module and health.
    pub fn build(&self, contents: &Vec<String>) -> (r: Report)
        requires
            totals_fit(strs(contents@)),
        ensures
            ({
                let t = report_totals(strs(contents@));
                let n = contents@.len();
                &&& r.title@ == "Reporte de Documentación OnlyCar"@
                &&& has_shape(r.generated_at@, minute_shape())
                &&& r.sections@.len() == 3
                &&& r.sections@[0].title@ == "Resumen Ejecutivo"@
                &&& r.sections@[0].content@ == summary_table(n, t.0, t.1, t.2.len())
                &&& r.sections@[1].title@ == "Distribución por Módulos"@
                &&& r.sections@[1].content@ == module_lines(sort_by_key(t.2))
                &&& r.sections@[2].title@ == "Salud del Proyecto"@
                &&& r.sections@[2].content@ == health_text(t.1, n)
                &&& forall|k: int| 0 <= k < 3 ==> (#[trigger] r.sections@[k]).level == 2
            }),
    {
        let ghost cs = strs(contents@);
        let mut words: usize = 0;
        let mut links: usize = 0;
        let mut mods: Vec<(String, usize)> = Vec::new();
        let mut i: usize = 0;
        while i < contents.len()
            invariant
                i <= contents@.len(),
                cs == strs(contents@),
                totals_fit(cs),
                words == report_totals(cs.subrange(0, i as int)).0,
                links == report_totals(cs.subrange(0, i as int)).1,
                counts_view(mods@) == report_totals(cs.subrange(0, i as int)).2,
                forall|k: int| 0 <= k < mods@.len() ==> (#[trigger] mods@[k]).1 <= i,
            decreases contents@.len() - i,
        {
            let ghost sub = cs.subrange(0, i + 1);
            proof {
                assert(sub.drop_last() =~= cs.subrange(0, i as int));
                assert(sub.last() == contents@[i as int]@);
                assert(report_totals(cs.subrange(0, i + 1)).0 <= usize::MAX);
                assert(report_totals(cs.subrange(0, i + 1)).1 <= usize::MAX);
            }
            let c = contents[i].as_str();
            let b = report_body_exec(c);
            words = words + word_count(&b, false);
            let caps = captures_all(RE_WIKI_LINK_WITH_ALIAS, c);
            assert(caps@.map_values(|x: Vec<Option<String>>| crate::patterns::opt_strs(x@)).len() == caps@.len());
            links = links + caps.len();
            match report_module_exec(c) {
                Some(m) => {
                    let ghost m0 = mods@;
                    proof {
                        assert forall|k: int| 0 <= k < counts_view(m0).len() implies (#[trigger] counts_view(m0)[k]).1 <= i by {
                            assert(counts_view(m0)[k].1 == m0[k].1);
                        }
                    }
                    bump_exec(&mut mods, m);
                    proof {
                        crate::commands::readme::lemma_bump_bound(counts_view(m0), report_module(c@)->0, i as nat);
                        assert forall|k: int| 0 <= k < mods@.len() implies (#[trigger] mods@[k]).1 <= i + 1 by {
                            assert(counts_view(mods@)[k].1 == mods@[k].1);
                        }
                    }
                },
                None => {},
            }
            i = i + 1;
        }
        assert(cs.subrange(0, contents@.len() as int) =~= cs);
        let n = contents.len();
        let summary = summary_exec(n, words, links, mods.len());
        let sorted = sort_by_key_exec(&mods);
        let mlines = module_lines_exec(&sorted);
        let mut health = owned("- ✅ **Documentos con frontmatter válido**: 100%\n- 📊 **Cobertura de enlaces**: ");
        push_str(&mut health, decimal(links).as_str());
        push_str(&mut health, " links en ");
        push_str(&mut health, decimal(n).as_str());
        push_str(&mut health, " docs");
        let mut report = Report::new("Reporte de Documentación OnlyCar");
        report.add_section("Resumen Ejecutivo", summary.as_str(), 2);
        report.add_section("Distribución por Módulos", mlines.as_str(), 2);
        report.add_section("Salud del Proyecto", health.as_str(), 2);
        report
    }
}

} // verus!
