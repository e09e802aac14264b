//! Project statistics: documents, words, links and modules.

use vstd::prelude::*;
use crate::text::{
    chars_of, concat2, count_matches, find, lines, replace_all, slice_to_vec, spec_contains,
    spec_count_from, spec_find, spec_lines, spec_replace, spec_split, spec_starts_with,
    spec_to_lowercase, spec_trim, spec_trim_start, spec_words, split, starts_with, string_of,
    to_lowercase, trim, trim_start, views, words, strs, str_eq, decimal_u64, push_str, spec_decimal,
};
use crate::fields::{spec_yaml_field, yaml_field};
use crate::commands::readme::{bump, bump_exec, counts_view, lemma_bump_bound, sort_desc, sort_desc_exec, ModCount};
use crate::commands::report::{module_key, sort_by_key, sort_by_key_exec};
use crate::patterns::{cap_at, cap_group, captures_all, opt_strs, spec_captures_all, RE_WIKI_LINK_WITH_ALIAS};

verus! {

/// Totals over the whole project.
#[derive(Debug, Clone, PartialEq, Eq, Structural)]
pub struct ProjectStats {
    pub total_documents: usize,
    pub healthy_documents: usize,
    pub total_words: usize,
    pub total_links: usize,
    pub broken_links: usize,
    pub modules_count: usize,
    pub max_depth: usize,
}

impl ProjectStats {
    /// All counts at zero.
    pub fn new() -> (r: ProjectStats)
        ensures
            r.total_documents == 0,
            r.healthy_documents == 0,
            r.total_words == 0,
            r.total_links == 0,
            r.broken_links == 0,
            r.modules_count == 0,
            r.max_depth == 0,
    {
        ProjectStats {
            total_documents: 0,
            healthy_documents: 0,
            total_words: 0,
            total_links: 0,
            broken_links: 0,
            modules_count: 0,
            max_depth: 0,
        }
    }

    /// Words per document, rounded down (0 without documents).
    pub fn avg_words_per_doc(&self) -> (r: usize)
        ensures
            r == if self.total_documents == 0 { 0 } else { self.total_words / self.total_documents },
    {
        if self.total_documents == 0 {
            0
        } else {
            self.total_words / self.total_documents
        }
    }
}

impl Default for ProjectStats {
    fn default() -> (r: ProjectStats)
        ensures
            r == ProjectStats::new_spec(),
    {
        ProjectStats::new()
    }
}

impl ProjectStats {
    /// The statistics with every count at zero.
    pub open spec fn new_spec() -> ProjectStats {
        ProjectStats {
            total_documents: 0,
            healthy_documents: 0,
            total_words: 0,
            total_links: 0,
            broken_links: 0,
            modules_count: 0,
            max_depth: 0,
        }
    }
}

/// Totals of one module.
#[derive(Debug, Clone)]
pub struct ModuleStats {
    pub id: String,
    pub name: String,
    pub document_count: usize,
    pub word_count: usize,
}

/// Options of the stats command.
#[derive(Debug, Clone)]
pub struct StatsCommand {
    pub path: Option<String>,
    pub by_module: bool,
    pub json: bool,
    pub sort: String,
    pub by_status: bool,
    pub by_type: bool,
    pub recent: Option<usize>,
    pub size: bool,
    pub heatmap: bool,
    pub cache: bool,
}

// ─────────────────────────────────────────────────────────────────────────
// What one document contributes
// ─────────────────────────────────────────────────────────────────────────

/// The text after the front matter (the whole text without one).
pub open spec fn body_of(c: Seq<char>) -> Seq<char> {
    if spec_starts_with(c, "---"@) {
        match spec_find(c.skip(3), "---"@) {
            Some(e) => c.skip(3 + e + 3),
            None => c,
        }
    } else {
        c
    }
}

/// A document is healthy when it opens a front matter that is closed.
pub open spec fn is_healthy(c: Seq<char>) -> bool {
    spec_starts_with(c, "---"@) && spec_contains(c.skip(3), "---"@)
}

/// Words of the body.
pub open spec fn doc_words(c: Seq<char>) -> nat {
    spec_words(body_of(c)).len()
}

/// A line that opens or closes a fenced code block.
pub open spec fn is_fence_line(l: Seq<char>) -> bool {
    let t = spec_trim_start(l);
    spec_starts_with(t, "```"@) || spec_starts_with(t, "~~~"@)
}

/// Whether the lines end inside a code block, and the lines outside code
/// blocks that are no fences.
pub open spec fn prose_scan(ls: Seq<Seq<char>>) -> (bool, Seq<Seq<char>>)
    decreases ls.len(),
{
    if ls.len() == 0 {
        (false, Seq::empty())
    } else {
        let (ic, out) = prose_scan(ls.drop_last());
        let l = ls.last();
        if is_fence_line(l) {
            (!ic, out)
        } else if ic {
            (ic, out)
        } else {
            (ic, out.push(l))
        }
    }
}

/// `s` without trailing backslashes.
pub open spec fn trim_backslashes(s: Seq<char>) -> Seq<char>
    decreases s.len(),
{
    if s.len() > 0 && s.last() == '\\' { trim_backslashes(s.drop_last()) } else { s }
}

/// The file a wiki-link target designates, before lower-casing: `None`
/// for an empty, web or anchor target; otherwise without alias, path and
/// anchor, trimmed.
pub open spec fn link_file(raw: Seq<char>) -> Option<Seq<char>> {
    let t = trim_backslashes(spec_trim(raw));
    if t.len() == 0 || spec_starts_with(t, "http"@) || spec_starts_with(t, "#"@) {
        None
    } else {
        let clean = spec_replace(t, "\\|"@, "|"@);
        let no_alias = spec_split(clean, '|')[0];
        let no_path = spec_split(no_alias, '/').last();
        Some(spec_trim(spec_split(no_path, '#')[0]))
    }
}

/// Some lower-cased stem contains the lower-cased target.
pub open spec fn link_found(target: Seq<char>, lstems: Seq<Seq<char>>) -> bool {
    exists|k: int| 0 <= k < lstems.len() && spec_contains(#[trigger] lstems[k], target)
}

/// (links, broken links) among the captures of a line.
pub open spec fn caps_tally(cs: Seq<Seq<Option<Seq<char>>>>, lstems: Seq<Seq<char>>) -> (nat, nat)
    decreases cs.len(),
{
    if cs.len() == 0 {
        (0, 0)
    } else {
        let (t, b) = caps_tally(cs.drop_last(), lstems);
        match cap_group(cs.last(), 1) {
            Some(raw) => match link_file(raw) {
                Some(f) => (t + 1, if link_found(spec_to_lowercase(f), lstems) { b } else { b + 1 }),
                None => (t, b),
            },
            None => (t, b),
        }
    }
}

/// (links, broken links) in lines.
pub open spec fn lines_tally(ls: Seq<Seq<char>>, lstems: Seq<Seq<char>>) -> (nat, nat)
    decreases ls.len(),
{
    if ls.len() == 0 {
        (0, 0)
    } else {
        let (t, b) = lines_tally(ls.drop_last(), lstems);
        let (t1, b1) = caps_tally(spec_captures_all(RE_WIKI_LINK_WITH_ALIAS@, ls.last()), lstems);
        (t + t1, b + b1)
    }
}

/// (links, broken links) of a document, outside code blocks.
pub open spec fn doc_tally(c: Seq<char>, lstems: Seq<Seq<char>>) -> (nat, nat) {
    lines_tally(prose_scan(spec_lines(c)).1, lstems)
}


// ─────────────────────────────────────────────────────────────────────────
// Totals over the project
// ─────────────────────────────────────────────────────────────────────────

/// A document as (file stem, content when it could be read).
pub type DocView = (Seq<char>, Option<Seq<char>>);

/// The views of the documents.
pub open spec fn docs_view(d: Seq<(String, Option<String>)>) -> Seq<DocView> {
    d.map_values(|x: (String, Option<String>)| (x.0@, match x.1 { Some(c) => Some(c@), None => None }))
}

/// The lower-cased stems of all documents.
pub open spec fn lower_stems(d: Seq<DocView>) -> Seq<Seq<char>> {
    d.map_values(|x: DocView| spec_to_lowercase(x.0))
}

/// `n`, or `usize::MAX` when larger (what saturating sums give).
pub open spec fn clamp(n: nat) -> nat {
    if n > usize::MAX { usize::MAX as nat } else { n }
}

/// The module of a document: its id up to the first dot.
pub open spec fn doc_module(c: Seq<char>) -> Option<Seq<char>> {
    match spec_yaml_field(c, "id"@) {
        Some(id) => Some(spec_split(id, '.')[0]),
        None => None,
    }
}

/// The depth of a document: the dots of its id plus one (0 without id).
pub open spec fn doc_depth(c: Seq<char>) -> nat {
    match spec_yaml_field(c, "id"@) {
        Some(id) => clamp((spec_count_from(id, "."@, 0) + 1) as nat),
        None => 0,
    }
}

/// (healthy documents, words, links, broken links, maximum depth,
/// modules with their document counts in first-appearance order) over
/// the documents that could be read.
pub open spec fn stats_totals(d: Seq<DocView>, ls: Seq<Seq<char>>) -> (nat, nat, nat, nat, nat, Seq<ModCount>)
    decreases d.len(),
{
    if d.len() == 0 {
        (0, 0, 0, 0, 0, Seq::empty())
    } else {
        let p = stats_totals(d.drop_last(), ls);
        match d.last().1 {
            Some(c) => {
                let t = doc_tally(c, ls);
                (p.0 + if is_healthy(c) { 1nat } else { 0nat },
                 p.1 + doc_words(c),
                 p.2 + t.0,
                 p.3 + t.1,
                 if doc_depth(c) > p.4 { doc_depth(c) } else { p.4 },
                 match doc_module(c) { Some(m) => bump(p.5, m), None => p.5 })
            },
            None => p,
        }
    }
}

/// Words of the documents of module `m`.
pub open spec fn module_words(d: Seq<DocView>, m: Seq<char>) -> nat
    decreases d.len(),
{
    if d.len() == 0 {
        0
    } else {
        let p = module_words(d.drop_last(), m);
        match d.last().1 {
            Some(c) => if doc_module(c) == Some(m) { p + doc_words(c) } else { p },
            None => p,
        }
    }
}

/// (id, document count) of module statistics.
pub open spec fn module_counts_view(v: Seq<ModuleStats>) -> Seq<ModCount> {
    v.map_values(|m: ModuleStats| (m.id@, m.document_count as nat))
}

// ─────────────────────────────────────────────────────────────────────────
// Computation
// ─────────────────────────────────────────────────────────────────────────

/// Saturating sum.
fn sat_add(x: usize, y: usize) -> (r: usize)
    ensures
        r == clamp((x + y) as nat),
{
    x.saturating_add(y)
}

/// The lines outside code blocks that are no fences.
fn prose_lines(c: &Vec<char>) -> (r: Vec<Vec<char>>)
    ensures
        views(r@) == prose_scan(spec_lines(c@)).1,
{
    let ls = lines(c.as_slice());
    let ghost lv = views(ls@);
    let f1 = chars_of("```");
    let f2 = chars_of("~~~");
    let mut ic = false;
    let mut r: Vec<Vec<char>> = Vec::new();
    let mut i: usize = 0;
    assert(lv.subrange(0, 0) =~= Seq::<Seq<char>>::empty());
    while i < ls.len()
        invariant
            i <= ls@.len(),
            lv == views(ls@),
            lv == spec_lines(c@),
            f1@ == "```"@,
            f2@ == "~~~"@,
            (ic, views(r@)) == prose_scan(lv.subrange(0, i as int)),
        decreases ls@.len() - i,
    {
        let ghost sub = lv.subrange(0, i + 1);
        assert(sub.drop_last() =~= lv.subrange(0, i as int));
        assert(sub.last() == ls@[i as int]@);
        let t = trim_start(ls[i].as_slice());
        if starts_with(&t, &f1) || starts_with(&t, &f2) {
            ic = !ic;
        } else if !ic {
            let ghost r0 = views(r@);
            let l = slice_to_vec(ls[i].as_slice(), 0, ls[i].len());
            assert(ls@[i as int]@.subrange(0, ls@[i as int]@.len() as int) =~= ls@[i as int]@);
            r.push(l);
            assert(views(r@) =~= r0.push(ls@[i as int]@));
        }
        i = i + 1;
    }
    assert(lv.subrange(0, ls@.len() as int) =~= lv);
    r
}

/// Trailing backslashes removed.
pub(crate) fn trim_bs(s: &[char]) -> (r: Vec<char>)
    ensures
        r@ == trim_backslashes(s@),
{
    let mut n: usize = s.len();
    assert(s@.subrange(0, n as int) =~= s@);
    while n > 0 && s[n - 1] == '\\'
        invariant
            n <= s@.len(),
            trim_backslashes(s@) == trim_backslashes(s@.subrange(0, n as int)),
        decreases n,
    {
        assert(s@.subrange(0, n as int).drop_last() =~= s@.subrange(0, n - 1));
        n = n - 1;
    }
    slice_to_vec(s, 0, n)
}

/// The file a link target designates (see [`link_file`]).
fn link_file_exec(raw: &String) -> (r: Option<Vec<char>>)
    ensures
        match link_file(raw@) {
            Some(f) => r matches Some(v) && v@ == f,
            None => r is None,
        },
{
    let t = trim_bs(&trim(&chars_of(raw.as_str())));
    let http = chars_of("http");
    let hash = chars_of("#");
    if t.len() == 0 || starts_with(&t, &http) || starts_with(&t, &hash) {
        return None;
    }
    let pat = chars_of("\\|");
    let bar = chars_of("|");
    proof {
        reveal_strlit("\\|");
    }
    let clean = replace_all(&t, &pat, &bar);
    let p1 = split(&clean, '|');
    proof {
        crate::text::lemma_split_nonempty(clean@, '|');
    }
    let p2 = split(p1[0].as_slice(), '/');
    proof {
        crate::text::lemma_split_nonempty(p1@[0]@, '/');
    }
    let np = &p2[p2.len() - 1];
    let p3 = split(np.as_slice(), '#');
    proof {
        crate::text::lemma_split_nonempty(np@, '#');
        assert(views(p1@)[0] == p1@[0]@);
        assert(views(p2@).last() == np@);
        assert(views(p3@)[0] == p3@[0]@);
    }
    Some(trim(p3[0].as_slice()))
}

/// Some stem contains the target.
fn link_found_exec(t: &Vec<char>, lstems: &Vec<Vec<char>>) -> (r: bool)
    ensures
        r == link_found(t@, views(lstems@)),
{
    let mut i: usize = 0;
    while i < lstems.len()
        invariant
            i <= lstems@.len(),
            forall|k: int| 0 <= k < i ==> !spec_contains(#[trigger] views(lstems@)[k], t@),
        decreases lstems@.len() - i,
    {
        if find(lstems[i].as_slice(), t.as_slice()).is_some() {
            assert(spec_contains(views(lstems@)[i as int], t@));
            return true;
        }
        i = i + 1;
    }
    false
}

/// (links, broken links) of a line, saturating.
fn line_tally(line: &Vec<char>, lstems: &Vec<Vec<char>>) -> (r: (usize, usize))
    ensures
        r.0 == clamp(caps_tally(spec_captures_all(RE_WIKI_LINK_WITH_ALIAS@, line@), views(lstems@)).0),
        r.1 == clamp(caps_tally(spec_captures_all(RE_WIKI_LINK_WITH_ALIAS@, line@), views(lstems@)).1),
{
    let text = string_of(line.as_slice());
    let caps = captures_all(RE_WIKI_LINK_WITH_ALIAS, text.as_str());
    let ghost cv = caps@.map_values(|c: Vec<Option<String>>| opt_strs(c@));
    let ghost lsv = views(lstems@);
    let mut t: usize = 0;
    let mut b: usize = 0;
    let mut i: usize = 0;
    assert(cv.subrange(0, 0) =~= Seq::<Seq<Option<Seq<char>>>>::empty());
    while i < caps.len()
        invariant
            i <= caps@.len(),
            cv == caps@.map_values(|c: Vec<Option<String>>| opt_strs(c@)),
            cv == spec_captures_all(RE_WIKI_LINK_WITH_ALIAS@, line@),
            lsv == views(lstems@),
            t == clamp(caps_tally(cv.subrange(0, i as int), lsv).0),
            b == clamp(caps_tally(cv.subrange(0, i as int), lsv).1),
        decreases caps@.len() - i,
    {
        let ghost sub = cv.subrange(0, i + 1);
        assert(sub.drop_last() =~= cv.subrange(0, i as int));
        assert(sub.last() == opt_strs(caps@[i as int]@));
        match cap_at(&caps[i], 1) {
            Some(raw) => {
                match link_file_exec(&raw) {
                    Some(f) => {
                        let low = chars_of(to_lowercase(string_of(f.as_slice()).as_str()).as_str());
                        t = sat_add(t, 1);
                        if !link_found_exec(&low, lstems) {
                            b = sat_add(b, 1);
                        }
                    },
                    None => {},
                }
            },
            None => {},
        }
        i = i + 1;
    }
    assert(cv.subrange(0, caps@.len() as int) =~= cv);
    (t, b)
}

/// (links, broken links) of a document, saturating.
fn doc_tally_exec(c: &Vec<char>, lstems: &Vec<Vec<char>>) -> (r: (usize, usize))
    ensures
        r.0 == clamp(doc_tally(c@, views(lstems@)).0),
        r.1 == clamp(doc_tally(c@, views(lstems@)).1),
{
    let pl = prose_lines(c);
    let ghost pv = views(pl@);
    let ghost lsv = views(lstems@);
    let mut t: usize = 0;
    let mut b: usize = 0;
    let mut i: usize = 0;
    assert(pv.subrange(0, 0) =~= Seq::<Seq<char>>::empty());
    while i < pl.len()
        invariant
            i <= pl@.len(),
            pv == views(pl@),
            pv == prose_scan(spec_lines(c@)).1,
            lsv == views(lstems@),
            t == clamp(lines_tally(pv.subrange(0, i as int), lsv).0),
            b == clamp(lines_tally(pv.subrange(0, i as int), lsv).1),
        decreases pl@.len() - i,
    {
        let ghost sub = pv.subrange(0, i + 1);
        assert(sub.drop_last() =~= pv.subrange(0, i as int));
        assert(sub.last() == pl@[i as int]@);
        let (t1, b1) = line_tally(&pl[i], lstems);
        t = sat_add(t, t1);
        b = sat_add(b, b1);
        i = i + 1;
    }
    assert(pv.subrange(0, pl@.len() as int) =~= pv);
    (t, b)
}

/// Words of the body of a document.
pub(crate) fn body_words(c: &Vec<char>) -> (n: usize)
    ensures
        n == doc_words(c@),
{
    let dash = chars_of("---");
    proof {
        reveal_strlit("---");
    }
    let body = if starts_with(c, &dash) {
        let rest = slice_to_vec(c, 3, c.len());
        assert(rest@ =~= c@.skip(3));
        match find(&rest, &dash) {
            Some(e) => {
                proof {
                    crate::text::lemma_find_from(rest@, dash@, 0);
                }
                let b = slice_to_vec(c, 3 + e + 3, c.len());
                assert(b@ =~= c@.skip(3 + e + 3));
                b
            },
            None => {
                let b = slice_to_vec(c, 0, c.len());
                assert(b@ =~= c@);
                b
            },
        }
    } else {
        let b = slice_to_vec(c, 0, c.len());
        assert(b@ =~= c@);
        b
    };
    assert(body@ == body_of(c@));
    let w = words(&body);
    assert(strs(w@).len() == w@.len());
    w.len()
}

/// Whether a document opens and closes a front matter.
fn healthy_exec(c: &Vec<char>) -> (r: bool)
    ensures
        r == is_healthy(c@),
{
    let dash = chars_of("---");
    proof {
        reveal_strlit("---");
    }
    if !starts_with(c, &dash) {
        return false;
    }
    let rest = slice_to_vec(c, 3, c.len());
    assert(rest@ =~= c@.skip(3));
    find(&rest, &dash).is_some()
}

/// The module and the depth of a document, from its id.
fn id_parts(content: &String) -> (r: Option<(String, usize)>)
    ensures
        match spec_yaml_field(content@, "id"@) {
            Some(id) => r matches Some(x) && x.0@ == spec_split(id, '.')[0] && x.1 == clamp((spec_count_from(id, "."@, 0) + 1) as nat),
            None => r is None,
        },
{
    match yaml_field(content.as_str(), "id") {
        Some(id) => {
            let ic = chars_of(id.as_str());
            let dot = chars_of(".");
            proof {
                reveal_strlit(".");
            }
            let n = count_matches(&ic, &dot);
            let depth = sat_add(n, 1);
            let parts = split(&ic, '.');
            proof {
                crate::text::lemma_split_nonempty(ic@, '.');
                assert(views(parts@)[0] == parts@[0]@);
            }
            Some((string_of(parts[0].as_slice()), depth))
        },
        None => None,
    }
}

/// What is kept of a document for its module: its module (when it has an
/// id) and the words of its body; nothing for an unreadable document.
pub open spec fn info_ok(dv: DocView, x: (Option<String>, usize)) -> bool {
    match dv.1 {
        Some(c) => x.1 == doc_words(c) && match x.0 {
            Some(m) => doc_module(c) == Some(m@),
            None => doc_module(c) is None,
        },
        None => x.0 is None && x.1 == 0,
    }
}

/// Words of the documents of a module, saturating.
fn module_words_exec(info: &Vec<(Option<String>, usize)>, m: &String, Ghost(d): Ghost<Seq<DocView>>) -> (r: usize)
    requires
        info@.len() == d.len(),
        forall|k: int| 0 <= k < d.len() ==> info_ok(#[trigger] d[k], info@[k]),
    ensures
        r == clamp(module_words(d, m@)),
{
    let mut acc: usize = 0;
    let mut i: usize = 0;
    while i < info.len()
        invariant
            i <= info@.len(),
            info@.len() == d.len(),
            forall|k: int| 0 <= k < d.len() ==> info_ok(#[trigger] d[k], info@[k]),
            acc == clamp(module_words(d.subrange(0, i as int), m@)),
        decreases info@.len() - i,
    {
        let ghost sub = d.subrange(0, i + 1);
        assert(sub.drop_last() =~= d.subrange(0, i as int));
        assert(sub.last() == d[i as int]);
        assert(info_ok(d[i as int], info@[i as int]));
        match &info[i].0 {
            Some(x) => {
                if str_eq(x.as_str(), m.as_str()) {
                    acc = sat_add(acc, info[i].1);
                }
            },
            None => {},
        }
        i = i + 1;
    }
    assert(d.subrange(0, d.len() as int) =~= d);
    acc
}

/// The lower-cased stems of the documents.
fn lower_stems_exec(docs: &Vec<(String, Option<String>)>) -> (r: Vec<Vec<char>>)
    ensures
        views(r@) == lower_stems(docs_view(docs@)),
{
    let ghost d = docs_view(docs@);
    let mut r: Vec<Vec<char>> = Vec::new();
    let mut i: usize = 0;
    while i < docs.len()
        invariant
            i <= docs@.len(),
            d == docs_view(docs@),
            views(r@) =~= lower_stems(d).subrange(0, i as int),
        decreases docs@.len() - i,
    {
        let l = chars_of(to_lowercase(docs[i].0.as_str()).as_str());
        let ghost v0 = views(r@);
        r.push(l);
        assert(views(r@) =~= v0.push(l@));
        i = i + 1;
    }
    r
}

/// A time span in seconds, in its largest whole unit: seconds below a
/// minute, minutes below an hour, hours below a day, days otherwise.
pub open spec fn spec_ago_text(ago: u64) -> Seq<char> {
    if ago < 60 {
        spec_decimal(ago as nat) + "s"@
    } else if ago < 3600 {
        spec_decimal((ago / 60) as nat) + "m"@
    } else if ago < 86400 {
        spec_decimal((ago / 3600) as nat) + "h"@
    } else {
        spec_decimal((ago / 86400) as nat) + "d"@
    }
}

/// How long ago a file changed, for the list of recent files (see [`spec_ago_text`]).
pub fn ago_text(ago: u64) -> (r: String)
    ensures
        r@ == spec_ago_text(ago),
{
    let (n, unit) = if ago < 60 {
        (ago, "s")
    } else if ago < 3600 {
        (ago / 60, "m")
    } else if ago < 86400 {
        (ago / 3600, "h")
    } else {
        (ago / 86400, "d")
    };
    let mut s = decimal_u64(n);
    push_str(&mut s, unit);
    proof {
        reveal_strlit("s");
        reveal_strlit("m");
        reveal_strlit("h");
        reveal_strlit("d");
    }
    s
}

/// The length of a month's bar in the activity heatmap: its count scaled
/// to 30 for the busiest month (`max`, at least the count).
pub fn heat_bar_len(count: usize, max: usize) -> (r: usize)
    requires
        0 < max,
        count <= max,
        count * 30 <= usize::MAX,
    ensures
        r == count * 30 / max as int,
        r <= 30,
{
    assert(count * 30 <= max * 30) by (nonlinear_arith)
        requires count <= max;
    assert(count * 30 / max as int <= 30) by (nonlinear_arith)
        requires count * 30 <= max * 30, 0 < max;
    count * 30 / max
}

impl StatsCommand {
    /// Whether a file enters the statistics: no trap or test file.
    pub fn counts_file(name: &str) -> (r: bool)
        ensures
            r == !(spec_starts_with(name@, "TRAP_"@) || spec_starts_with(name@, "AUTOTEST_"@)
                || spec_starts_with(name@, "TEST_"@)),
    {
        let n = chars_of(name);
        !(starts_with(&n, &chars_of("TRAP_")) || starts_with(&n, &chars_of("AUTOTEST_"))
            || starts_with(&n, &chars_of("TEST_")))
    }

    /// The statistics of the documents, each given as (file stem, content
    /// when it could be read): totals over the readable documents (sums
    /// saturate at `usize::MAX`), and the modules by increasing numeric id.
    pub fn run(&self, docs: &Vec<(String, Option<String>)>) -> (r: (ProjectStats, Vec<ModuleStats>))
        ensures
            ({
                let d = docs_view(docs@);
                let t = stats_totals(d, lower_stems(d));
                &&& r.0.total_documents == docs@.len()
                &&& r.0.healthy_documents == t.0
                &&& r.0.total_words == clamp(t.1)
                &&& r.0.total_links == clamp(t.2)
                &&& r.0.broken_links == clamp(t.3)
                &&& r.0.max_depth == t.4
                &&& r.0.modules_count == t.5.len()
                &&& module_counts_view(r.1@) == sort_by_key(t.5)
                &&& forall|k: int| 0 <= k < r.1@.len() ==>
                    (#[trigger] r.1@[k]).word_count == clamp(module_words(d, r.1@[k].id@))
                    && r.1@[k].name@ == "Módulo "@ + r.1@[k].id@
            }),
    {
        let ghost d = docs_view(docs@);
        let lstems = lower_stems_exec(docs);
        let ghost lsv = views(lstems@);
        let (healthy, words, links, broken, depth, mods, info) = Self::tally_docs(docs, &lstems);
        let sorted = sort_by_key_exec(&mods);
        let mut out: Vec<ModuleStats> = Vec::new();
        let mut k: usize = 0;
        while k < sorted.len()
            invariant
                k <= sorted@.len(),
                info@.len() == d.len(),
                forall|j: int| 0 <= j < d.len() ==> info_ok(#[trigger] d[j], info@[j]),
                module_counts_view(out@) =~= counts_view(sorted@).subrange(0, k as int),
                forall|j: int| 0 <= j < out@.len() ==>
                    (#[trigger] out@[j]).word_count == clamp(module_words(d, out@[j].id@))
                    && out@[j].name@ == "Módulo "@ + out@[j].id@,
            decreases sorted@.len() - k,
        {
            let id = sorted[k].0.clone();
            let wc = module_words_exec(&info, &id, Ghost(d));
            let name = concat2("Módulo ", id.as_str());
            let ghost o0 = module_counts_view(out@);
            out.push(ModuleStats { id, name, document_count: sorted[k].1, word_count: wc });
            assert(module_counts_view(out@) =~= o0.push(counts_view(sorted@)[k as int]));
            k = k + 1;
        }
        assert(counts_view(sorted@).subrange(0, sorted@.len() as int) =~= counts_view(sorted@));
        let stats = ProjectStats {
            total_documents: docs.len(),
            healthy_documents: healthy,
            total_words: words,
            total_links: links,
            broken_links: broken,
            modules_count: mods.len(),
            max_depth: depth,
        };
        (stats, out)
    }

    /// The totals over the documents, and what each contributes to its module.
    #[verifier::rlimit(40)]
    fn tally_docs(docs: &Vec<(String, Option<String>)>, lstems: &Vec<Vec<char>>)
        -> (r: (usize, usize, usize, usize, usize, Vec<(String, usize)>, Vec<(Option<String>, usize)>))
        requires
            views(lstems@) == lower_stems(docs_view(docs@)),
        ensures
            ({
                let d = docs_view(docs@);
                let t = stats_totals(d, views(lstems@));
                &&& r.0 == t.0
                &&& r.1 == clamp(t.1)
                &&& r.2 == clamp(t.2)
                &&& r.3 == clamp(t.3)
                &&& r.4 == t.4
                &&& counts_view(r.5@) == t.5
                &&& r.6@.len() == d.len()
                &&& forall|j: int| 0 <= j < d.len() ==> info_ok(#[trigger] d[j], r.6@[j])
            }),
    {
        let ghost d = docs_view(docs@);
        let ghost lsv = views(lstems@);
        let mut healthy: usize = 0;
        let mut words: usize = 0;
        let mut links: usize = 0;
        let mut broken: usize = 0;
        let mut depth: usize = 0;
        let mut mods: Vec<(String, usize)> = Vec::new();
        let mut info: Vec<(Option<String>, usize)> = Vec::new();
        let mut i: usize = 0;
        assert(d.subrange(0, 0) =~= Seq::<DocView>::empty());
        while i < docs.len()
            invariant
                i <= docs@.len(),
                d == docs_view(docs@),
                lsv == views(lstems@),
                ({
                    let t = stats_totals(d.subrange(0, i as int), lsv);
                    &&& healthy == t.0
                    &&& words == clamp(t.1)
                    &&& links == clamp(t.2)
                    &&& broken == clamp(t.3)
                    &&& depth == t.4
                    &&& counts_view(mods@) == t.5
                }),
                healthy <= i,
                forall|k: int| 0 <= k < mods@.len() ==> (#[trigger] mods@[k]).1 <= i,
                info@.len() == i,
                forall|j: int| 0 <= j < i ==> info_ok(#[trigger] d[j], info@[j]),
            decreases docs@.len() - i,
        {
            let ghost sub = d.subrange(0, i + 1);
            assert(sub.drop_last() =~= d.subrange(0, i as int));
            assert(sub.last() == d[i as int]);
            match &docs[i].1 {
                Some(content) => {
                    let c = chars_of(content.as_str());
                    if healthy_exec(&c) {
                        healthy = healthy + 1;
                    }
                    let w = body_words(&c);
                    words = sat_add(words, w);
                    let (t1, b1) = doc_tally_exec(&c, lstems);
                    links = sat_add(links, t1);
                    broken = sat_add(broken, b1);
                    match id_parts(content) {
                        Some((m, dp)) => {
                            if dp > depth {
                                depth = dp;
                            }
                            proof {
                                lemma_bump_bound(counts_view(mods@), m@, i as nat);
                            }
                            let ghost old_mods = mods@;
                            bump_exec(&mut mods, m.clone());
                            proof {
                                assert forall|k: int| 0 <= k < mods@.len() implies (#[trigger] mods@[k]).1 <= i + 1 by {
                                    assert(counts_view(mods@)[k].1 == mods@[k].1 as nat);
                                }
                            }
                            info.push((Some(m), w));
                        },
                        None => {
                            info.push((None, w));
                        },
                    }
                },
                None => {
                    info.push((None, 0));
                },
            }
            i = i + 1;
        }
        assert(d.subrange(0, docs@.len() as int) =~= d);
        (healthy, words, links, broken, depth, mods, info)
    }
}

/// The distinct values with how many times each occurs, in order of first
/// appearance.
pub open spec fn tally_spec(vals: Seq<Seq<char>>) -> Seq<ModCount>
    decreases vals.len(),
{
    if vals.len() == 0 { Seq::empty() } else { bump(tally_spec(vals.drop_last()), vals.last()) }
}

impl StatsCommand {
    /// The distinct values with how many times each occurs, the most
    /// frequent first (equal counts in order of first appearance).
    pub fn tally(values: &Vec<String>) -> (r: Vec<(String, usize)>)
        ensures
            counts_view(r@) == sort_desc(tally_spec(strs(values@))),
    {
        let ghost vv = strs(values@);
        let mut acc: Vec<(String, usize)> = Vec::new();
        let mut i: usize = 0;
        assert(vv.subrange(0, 0) =~= Seq::<Seq<char>>::empty());
        assert(counts_view(acc@) =~= Seq::<ModCount>::empty());
        while i < values.len()
            invariant
                i <= values@.len(),
                vv == strs(values@),
                counts_view(acc@) == tally_spec(vv.subrange(0, i as int)),
                forall|k: int| 0 <= k < acc@.len() ==> (#[trigger] acc@[k]).1 <= i,
            decreases values@.len() - i,
        {
            let ghost sub = vv.subrange(0, i + 1);
            assert(sub.drop_last() =~= vv.subrange(0, i as int));
            assert(sub.last() == values@[i as int]@);
            proof {
                assert forall|k: int| 0 <= k < counts_view(acc@).len() implies (#[trigger] counts_view(acc@)[k]).1 <= i by {
                    assert(counts_view(acc@)[k].1 == acc@[k].1);
                }
                lemma_bump_bound(counts_view(acc@), values@[i as int]@, i as nat);
            }
            bump_exec(&mut acc, values[i].clone());
            proof {
                assert forall|k: int| 0 <= k < acc@.len() implies (#[trigger] acc@[k]).1 <= i + 1 by {
                    assert(counts_view(acc@)[k].1 == acc@[k].1);
                }
            }
            i = i + 1;
        }
        assert(vv.subrange(0, values@.len() as int) =~= vv);
        sort_desc_exec(acc)
    }
}

} // verus!
