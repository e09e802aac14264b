//! Generation of the project README from the documents.

use vstd::prelude::*;
use crate::commands::module::module_of;
use crate::patterns::{group, RE_MODULE};
use crate::paths::{path_join, spec_path_join};
use crate::text::{
    chars_of, decimal, lines, owned, push_str, replace_str, spec_decimal, spec_lines,
    spec_replace, spec_word_count, str_eq, string_of, trim, word_count,
};

verus! {

/// Outcome of a README generation.
#[derive(Debug, Clone)]
pub struct ReadmeResult {
    pub output_path: String,
    pub sections_generated: usize,
    pub lines: usize,
}

impl ReadmeResult {
    pub fn new(path: &str) -> (r: ReadmeResult)
        ensures
            r.output_path@ == path@,
            r.sections_generated == 0,
            r.lines == 0,
    {
        ReadmeResult { output_path: owned(path), sections_generated: 0, lines: 0 }
    }
}

/// Options of the readme command.
#[derive(Debug, Clone)]
pub struct ReadmeCommand {
    pub path: Option<String>,
    pub output: Option<String>,
    pub badges: bool,
    pub toc: bool,
    pub template: Option<String>,
    pub stats: bool,
}

/// A module and its number of documents.
pub type ModCount = (Seq<char>, nat);

/// The modules of the documents with their counts, first-appearance order.
pub open spec fn module_counts(cs: Seq<Seq<char>>) -> Seq<ModCount>
    decreases cs.len(),
{
    if cs.len() == 0 {
        Seq::empty()
    } else {
        bump(module_counts(cs.drop_last()), module_of(cs.last()))
    }
}

/// One more document for module `m`.
pub open spec fn bump(p: Seq<ModCount>, m: Seq<char>) -> Seq<ModCount>
    decreases p.len(),
{
    if p.len() == 0 {
        seq![(m, 1nat)]
    } else if p[0].0 == m {
        p.update(0, (m, p[0].1 + 1))
    } else {
        seq![p[0]] + bump(p.drop_first(), m)
    }
}

/// `x` inserted after the last entry whose count is at least its own.
pub open spec fn insert_desc(s: Seq<ModCount>, x: ModCount) -> Seq<ModCount>
    decreases s.len(),
{
    if s.len() == 0 || s.last().1 >= x.1 { s.push(x) } else { insert_desc(s.drop_last(), x).push(s.last()) }
}

/// The entries by decreasing count, equal counts in their original order.
pub open spec fn sort_desc(s: Seq<ModCount>) -> Seq<ModCount>
    decreases s.len(),
{
    if s.len() == 0 { Seq::empty() } else { insert_desc(sort_desc(s.drop_last()), s.last()) }
}

/// Sum of the word counts.
pub open spec fn total_words(cs: Seq<Seq<char>>) -> nat
    decreases cs.len(),
{
    if cs.len() == 0 { 0 } else { total_words(cs.drop_last()) + spec_word_count(cs.last(), false) }
}

/// The rows of the module table.
pub open spec fn module_rows(s: Seq<ModCount>) -> Seq<char>
    decreases s.len(),
{
    if s.len() == 0 { Seq::empty() } else { module_rows(s.drop_last()) + "| "@ + s.last().0 + " | "@ + spec_decimal(s.last().1) + " |\n"@ }
}

/// The badges of the README.
pub open spec fn readme_badges(file_count: nat, words: nat) -> Seq<char> {
    "![Docs](https://img.shields.io/badge/docs-"@ + spec_decimal(file_count) + "-blue)\n"@
        + "![Words](https://img.shields.io/badge/words-"@ + spec_decimal(words) + "-green)\n\n"@
}

/// The statistics section of the README.
pub open spec fn readme_stats(file_count: nat, words: nat, n_mods: nat) -> Seq<char> {
    "## 📊 Estadísticas\n\n"@ + "- **Documentos:** "@ + spec_decimal(file_count) + "\n"@
        + "- **Palabras:** "@ + spec_decimal(words) + "\n"@ + "- **Módulos:** "@ + spec_decimal(n_mods) + "\n\n"@
}

/// The module table of the README.
pub open spec fn readme_toc(mods: Seq<ModCount>) -> Seq<char> {
    "## 📁 Módulos\n\n"@ + "| Módulo | Documentos |\n"@ + "|--------|------------|\n"@ + module_rows(sort_desc(mods)) + "\n"@
}

/// The template with its placeholders filled.
pub open spec fn readme_template(t: Seq<char>, file_count: nat, words: nat, n_mods: nat, today: Seq<char>) -> Seq<char> {
    spec_replace(spec_replace(spec_replace(spec_replace(spec_replace(t,
        "{{PROJECT_NAME}}"@, "Proyecto"@), "{{DOC_COUNT}}"@, spec_decimal(file_count)),
        "{{WORD_COUNT}}"@, spec_decimal(words)), "{{MODULE_COUNT}}"@, spec_decimal(n_mods)),
        "{{DATE}}"@, today)
}

/// The footer of the README.
pub open spec fn readme_footer(now: Seq<char>) -> Seq<char> {
    "---\n\n"@ + "*Generado automáticamente por oc_diagdoc el "@ + now + "*\n"@
}

/// The README text and the number of sections it holds: badges, title,
/// statistics, module table and filled template as asked, then the footer.
pub open spec fn spec_readme(
    cmd: ReadmeCommand,
    file_count: nat,
    contents: Seq<Seq<char>>,
    template: Option<Seq<char>>,
    today: Seq<char>,
    now: Seq<char>,
) -> (Seq<char>, nat) {
    let words = total_words(contents);
    let mods = module_counts(contents);
    let badges = if cmd.badges { readme_badges(file_count, words) } else { Seq::empty() };
    let stats = if cmd.stats { readme_stats(file_count, words, mods.len()) } else { Seq::empty() };
    let toc = if cmd.toc { readme_toc(mods) } else { Seq::empty() };
    let tpl = match template {
        Some(t) => readme_template(t, file_count, words, mods.len(), today),
        None => Seq::empty(),
    };
    let sections = (if cmd.badges { 1nat } else { 0 }) + 1 + (if cmd.stats { 1nat } else { 0 })
        + (if cmd.toc { 1nat } else { 0 }) + (if template is Some { 1nat } else { 0 }) + 1;
    (badges + "# Documentación del Proyecto\n\n"@ + stats + toc + tpl + readme_footer(now), sections)
}

/// Counts one more document of module `m`.
pub(crate) fn bump_exec(v: &mut Vec<(String, usize)>, m: String)
    requires
        forall|k: int| 0 <= k < old(v)@.len() ==> (#[trigger] old(v)@[k]).1 < usize::MAX,
    ensures
        counts_view(final(v)@) == bump(counts_view(old(v)@), m@),
{
    let ghost cv = counts_view(v@);
    let mut i: usize = 0;
    assert(cv.subrange(0, 0) + cv.skip(0) =~= cv);
    while i < v.len()
        invariant
            i <= v@.len(),
            cv == counts_view(v@),
            v@ == old(v)@,
            forall|k: int| 0 <= k < v@.len() ==> (#[trigger] v@[k]).1 < usize::MAX,
            bump(cv, m@) == cv.subrange(0, i as int) + bump(cv.skip(i as int), m@),
        decreases v@.len() - i,
    {
        let ghost rest = cv.skip(i as int);
        assert(rest[0] == cv[i as int]);
        if str_eq(v[i].0.as_str(), m.as_str()) {
            let c = v[i].1 + 1;
            v.set(i, (m, c));
            assert(counts_view(v@) =~= cv.subrange(0, i as int) + rest.update(0, (m@, rest[0].1 + 1)));
            return;
        }
        assert(rest.drop_first() =~= cv.skip(i + 1));
        assert(cv.subrange(0, i as int) + (seq![rest[0]] + bump(rest.drop_first(), m@))
            =~= cv.subrange(0, i + 1) + bump(cv.skip(i + 1), m@));
        i = i + 1;
    }
    v.push((m, 1));
    assert(cv.skip(i as int) =~= Seq::<ModCount>::empty());
    assert(cv.subrange(0, i as int) =~= cv);
    assert(counts_view(v@) =~= cv.push((m@, 1nat)));
}

/// The texts of (module, count) pairs.
pub open spec fn counts_view(v: Seq<(String, usize)>) -> Seq<ModCount> {
    v.map_values(|p: (String, usize)| (p.0@, p.1 as nat))
}

/// Sorts by decreasing count, keeping the order of equal counts.
pub(crate) fn sort_desc_exec(v: Vec<(String, usize)>) -> (r: Vec<(String, usize)>)
    ensures
        counts_view(r@) == sort_desc(counts_view(v@)),
{
    let ghost cv = counts_view(v@);
    let mut r: Vec<(String, usize)> = Vec::new();
    let mut src = v;
    let mut i: usize = 0;
    let n = src.len();
    let mut items: Vec<(String, usize)> = Vec::new();
    // Move the entries out in order.
    while src.len() > 0
        invariant
            counts_view(items@) + counts_view(src@).reverse() == cv.reverse(),
        decreases src@.len(),
    {
        let ghost s0 = counts_view(src@);
        let ghost i0 = counts_view(items@);
        let x = src.pop().unwrap();
        assert(s0 =~= counts_view(src@).push((x.0@, x.1 as nat)));
        items.push(x);
        assert(counts_view(items@) =~= i0.push((x.0@, x.1 as nat)));
        assert(s0.reverse() =~= seq![(x.0@, x.1 as nat)] + counts_view(src@).reverse());
        assert(counts_view(items@) + counts_view(src@).reverse() =~= i0 + s0.reverse());
    }
    assert(counts_view(src@).reverse() =~= Seq::<ModCount>::empty());
    assert(counts_view(items@) =~= cv.reverse());
    while items.len() > 0
        invariant
            counts_view(r@) == sort_desc(cv.subrange(0, cv.len() - counts_view(items@).len())),
            counts_view(items@) == cv.subrange(cv.len() - counts_view(items@).len(), cv.len() as int).reverse(),
            counts_view(items@).len() <= cv.len(),
        decreases items@.len(),
    {
        let ghost iv = counts_view(items@);
        let ghost k = cv.len() - iv.len();
        let x = items.pop().unwrap();
        assert(iv.last() == cv[k]) by {
            assert(iv == cv.subrange(k, cv.len() as int).reverse());
        }
        assert(counts_view(items@) =~= iv.drop_last());
        assert(counts_view(items@) =~= cv.subrange(k + 1, cv.len() as int).reverse());
        assert(cv.subrange(0, k + 1).drop_last() =~= cv.subrange(0, k));
        insert_desc_exec(&mut r, x);
    }
    assert(cv.subrange(0, cv.len() as int) =~= cv);
    r
}

/// Inserts after the last entry whose count is at least the new one's.
fn insert_desc_exec(r: &mut Vec<(String, usize)>, x: (String, usize))
    ensures
        counts_view(final(r)@) == insert_desc(counts_view(old(r)@), (x.0@, x.1 as nat)),
{
    let ghost xv = (x.0@, x.1 as nat);
    let mut p: usize = r.len();
    let ghost rv = counts_view(r@);
    assert(rv.subrange(0, rv.len() as int) =~= rv);
    assert(rv.subrange(rv.len() as int, rv.len() as int) =~= Seq::<ModCount>::empty());
    assert(insert_desc(rv, xv) =~= insert_desc(rv.subrange(0, p as int), xv) + rv.subrange(p as int, rv.len() as int));
    while p > 0 && r[p - 1].1 < x.1
        invariant
            p <= r@.len(),
            rv == counts_view(r@),
            xv == (x.0@, x.1 as nat),
            insert_desc(rv, xv) == insert_desc(rv.subrange(0, p as int), xv) + rv.subrange(p as int, rv.len() as int),
        decreases p,
    {
        let ghost pre = rv.subrange(0, p as int);
        assert(pre.drop_last() =~= rv.subrange(0, p - 1));
        assert(pre.last() == rv[p - 1]);
        assert(rv[p - 1] == (r@[p - 1].0@, r@[p - 1].1 as nat));
        assert(rv[p - 1].1 < xv.1);
        assert(insert_desc(pre, xv) == insert_desc(rv.subrange(0, p - 1), xv).push(pre.last()));
        assert(insert_desc(rv.subrange(0, p - 1), xv).push(pre.last()) + rv.subrange(p as int, rv.len() as int)
            =~= insert_desc(rv.subrange(0, p - 1), xv) + rv.subrange(p - 1, rv.len() as int));
        p = p - 1;
    }
    r.insert(p, x);
    assert(insert_desc(rv.subrange(0, p as int), xv) == rv.subrange(0, p as int).push(xv));
    assert(counts_view(r@) =~= rv.subrange(0, p as int).push(xv) + rv.subrange(p as int, rv.len() as int));
}

/// Words and module counts of the contents.
fn count_modules(contents: &Vec<String>) -> (r: (usize, Vec<(String, usize)>))
    requires
        total_words(crate::text::strs(contents@)) <= usize::MAX,
    ensures
        r.0 == total_words(crate::text::strs(contents@)),
        counts_view(r.1@) == module_counts(crate::text::strs(contents@)),
{
    let ghost cs = crate::text::strs(contents@);
    let mut words: usize = 0;
    let mut mods: Vec<(String, usize)> = Vec::new();
    let mut i: usize = 0;
    while i < contents.len()
        invariant
            i <= contents@.len(),
            cs == crate::text::strs(contents@),
            total_words(cs) <= usize::MAX,
            words == total_words(cs.subrange(0, i as int)),
            counts_view(mods@) == module_counts(cs.subrange(0, i as int)),
            forall|k: int| 0 <= k < mods@.len() ==> (#[trigger] mods@[k]).1 <= i,
        decreases contents@.len() - i,
    {
        let ghost sub = cs.subrange(0, i + 1);
        proof {
            assert(sub.drop_last() =~= cs.subrange(0, i as int));
            assert(sub.last() == contents@[i as int]@);
            lemma_words_prefix(cs, i as int);
        }
        let c = contents[i].as_str();
        let m = match group(RE_MODULE, c, 1) {
            Some(x) => string_of(&trim(&chars_of(x.as_str()))),
            None => owned("sin_modulo"),
        };
        words = words + word_count(&chars_of(c), false);
        let ghost m0 = mods@;
        proof {
            assert forall|k: int| 0 <= k < counts_view(m0).len() implies (#[trigger] counts_view(m0)[k]).1 <= i by {
                assert(counts_view(m0)[k].1 == m0[k].1);
            }
        }
        bump_exec(&mut mods, m);
        proof {
            lemma_bump_bound(counts_view(m0), module_of(contents@[i as int]@), i as nat);
            assert forall|k: int| 0 <= k < mods@.len() implies (#[trigger] mods@[k]).1 <= i + 1 by {
                assert(counts_view(mods@)[k].1 == mods@[k].1);
            }
        }
        i = i + 1;
    }
    assert(cs.subrange(0, contents@.len() as int) =~= cs);
    (words, mods)
}

/// The rows of the module table.
fn module_rows_exec(sorted: &Vec<(String, usize)>) -> (out: String)
    ensures
        out@ == module_rows(counts_view(sorted@)),
{
    let ghost sv = counts_view(sorted@);
    let mut out = String::new();
    let mut k: usize = 0;
    while k < sorted.len()
        invariant
            k <= sorted@.len(),
            sv == counts_view(sorted@),
            out@ == module_rows(sv.subrange(0, k as int)),
        decreases sorted@.len() - k,
    {
        let ghost sub = sv.subrange(0, k + 1);
        assert(sub.drop_last() =~= sv.subrange(0, k as int));
        push_str(&mut out, "| ");
        push_str(&mut out, sorted[k].0.as_str());
        push_str(&mut out, " | ");
        push_str(&mut out, decimal(sorted[k].1).as_str());
        push_str(&mut out, " |\n");
        assert(out@ =~= module_rows(sub));
        k = k + 1;
    }
    assert(sv.subrange(0, sorted@.len() as int) =~= sv);
    out
}

/// The template with its placeholders filled.
fn fill_template(t: &str, file_count: usize, words: usize, n_mods: usize, today: &str) -> (e: String)
    ensures
        e@ == readme_template(t@, file_count as nat, words as nat, n_mods as nat, today@),
{
    proof {
        reveal_strlit("{{PROJECT_NAME}}");
        reveal_strlit("{{DOC_COUNT}}");
        reveal_strlit("{{WORD_COUNT}}");
        reveal_strlit("{{MODULE_COUNT}}");
        reveal_strlit("{{DATE}}");
    }
    let a = replace_str(t, "{{PROJECT_NAME}}", "Proyecto");
    let b = replace_str(a.as_str(), "{{DOC_COUNT}}", decimal(file_count).as_str());
    let c = replace_str(b.as_str(), "{{WORD_COUNT}}", decimal(words).as_str());
    let d = replace_str(c.as_str(), "{{MODULE_COUNT}}", decimal(n_mods).as_str());
    replace_str(d.as_str(), "{{DATE}}", today)
}

/// The badges of the README.
fn badges_exec(file_count: usize, words: usize) -> (s: String)
    ensures
        s@ == readme_badges(file_count as nat, words as nat),
{
    let mut out = owned("![Docs](https://img.shields.io/badge/docs-");
    push_str(&mut out, decimal(file_count).as_str());
    push_str(&mut out, "-blue)\n");
    push_str(&mut out, "![Words](https://img.shields.io/badge/words-");
    push_str(&mut out, decimal(words).as_str());
    push_str(&mut out, "-green)\n\n");
    out
}

/// The statistics section of the README.
fn stats_exec(file_count: usize, words: usize, n_mods: usize) -> (s: String)
    ensures
        s@ == readme_stats(file_count as nat, words as nat, n_mods as nat),
{
    let mut out = owned("## 📊 Estadísticas\n\n");
    push_str(&mut out, "- **Documentos:** ");
    push_str(&mut out, decimal(file_count).as_str());
    push_str(&mut out, "\n");
    push_str(&mut out, "- **Palabras:** ");
    push_str(&mut out, decimal(words).as_str());
    push_str(&mut out, "\n");
    push_str(&mut out, "- **Módulos:** ");
    push_str(&mut out, decimal(n_mods).as_str());
    push_str(&mut out, "\n\n");
    out
}

impl ReadmeCommand {
    /// Where the README is written: the output given, or `README.md` in the
    /// data directory.
    pub fn output_path(&self, data_dir: &str) -> (p: String)
        ensures
            p@ == match self.output { Some(o) => o@, None => spec_path_join(data_dir@, "README.md"@) },
    {
        match &self.output {
            Some(o) => o.clone(),
            None => path_join(data_dir, "README.md"),
        }
    }

    /// The README of a project with `file_count` documents, of which
    /// `contents` could be read; `template` is the template's text when one
    /// was given and read; `today` and `now` are the dates written.
    pub fn compose(
        &self,
        file_count: usize,
        contents: &Vec<String>,
        template: Option<&str>,
        today: &str,
        now: &str,
    ) -> (r: (usize, String))
        requires
            total_words(crate::text::strs(contents@)) <= usize::MAX,
        ensures
            ({
                let s = spec_readme(*self, file_count as nat, crate::text::strs(contents@),
                    match template { Some(t) => Some(t@), None => None }, today@, now@);
                r.1@ == s.0 && r.0 == s.1
            }),
    {
        let ghost cs = crate::text::strs(contents@);
        let (words, mods) = count_modules(contents);
        let n_mods = mods.len();
        let badges = if self.badges { badges_exec(file_count, words) } else { String::new() };
        let stats = if self.stats { stats_exec(file_count, words, n_mods) } else { String::new() };
        let toc = if self.toc {
            let sorted = sort_desc_exec(mods);
            let mut t = owned("## 📁 Módulos\n\n");
            push_str(&mut t, "| Módulo | Documentos |\n");
            push_str(&mut t, "|--------|------------|\n");
            push_str(&mut t, module_rows_exec(&sorted).as_str());
            push_str(&mut t, "\n");
            t
        } else {
            String::new()
        };
        let tpl = match template {
            Some(t) => fill_template(t, file_count, words, n_mods, today),
            None => String::new(),
        };
        let mut out = badges;
        push_str(&mut out, "# Documentación del Proyecto\n\n");
        push_str(&mut out, stats.as_str());
        push_str(&mut out, toc.as_str());
        push_str(&mut out, tpl.as_str());
        push_str(&mut out, "---\n\n");
        push_str(&mut out, "*Generado automáticamente por oc_diagdoc el ");
        push_str(&mut out, now);
        push_str(&mut out, "*\n");
        let sections: usize = (if self.badges { 1usize } else { 0 }) + 1 + (if self.stats { 1usize } else { 0 })
            + (if self.toc { 1usize } else { 0 }) + (if template.is_some() { 1usize } else { 0 }) + 1;
        proof {
            let s = spec_readme(*self, file_count as nat, cs, match template { Some(t) => Some(t@), None => None }, today@, now@);
            assert(out@ =~= s.0);
        }
        (sections, out)
    }

    /// The outcome: sections written and number of lines of the README.
    pub fn result_for(&self, output_path: &str, sections: usize, readme: &str) -> (r: ReadmeResult)
        ensures
            r.output_path@ == output_path@,
            r.sections_generated == sections,
            r.lines == spec_lines(readme@).len(),
    {
        let mut r = ReadmeResult::new(output_path);
        r.sections_generated = sections;
        r.lines = lines(&chars_of(readme)).len();
        r
    }
}

proof fn lemma_words_prefix(cs: Seq<Seq<char>>, i: int)
    requires
        0 <= i < cs.len(),
    ensures
        total_words(cs.subrange(0, i + 1)) <= total_words(cs),
    decreases cs.len(),
{
    if i + 1 < cs.len() {
        lemma_words_prefix(cs.drop_last(), i);
        assert(cs.drop_last().subrange(0, i + 1) =~= cs.subrange(0, i + 1));
    } else {
        assert(cs.subrange(0, i + 1) =~= cs);
    }
}

pub(crate) proof fn lemma_bump_bound(p: Seq<ModCount>, m: Seq<char>, bound: nat)
    requires
        forall|k: int| 0 <= k < p.len() ==> (#[trigger] p[k]).1 <= bound,
    ensures
        forall|k: int| 0 <= k < bump(p, m).len() ==> (#[trigger] bump(p, m)[k]).1 <= bound + 1,
    decreases p.len(),
{
    if p.len() > 0 && p[0].0 != m {
        lemma_bump_bound(p.drop_first(), m, bound);
        let b = bump(p, m);
        assert forall|k: int| 0 <= k < b.len() implies (#[trigger] b[k]).1 <= bound + 1 by {
            if k > 0 {
                assert(b[k] == bump(p.drop_first(), m)[k - 1]);
            }
        }
    }
}

} // verus!
