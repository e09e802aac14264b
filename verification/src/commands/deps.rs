//! Dependencies between documents: hierarchy, links, cycles, roots, leaves
//! and orphans.

use vstd::prelude::*;
use crate::commands::deps_cycles::law_dep_cycle_found;
use crate::graph::{count_false, dfs_from, dfs_roots, dfs_succ, first_pos, lemma_count_false_le, lemma_count_false_mono,
    lemma_count_false_set, lemma_first_pos, unmarked};
use crate::order::{sort_strings, sorted_strs};
use crate::paths::{file_stem, spec_file_stem};
use crate::patterns::{
    cap_at, cap_group, captures_all, group, opt_strs, spec_captures_all, spec_group,
    RE_MD_LINK_TO_MD, RE_PARENT_ID, RE_WIKI_LINK,
};
use crate::text::{
    chars_of, contains_str, find, join, owned, push_str, replace_str, spec_contains, spec_join, spec_replace,
    spec_starts_with, spec_trim, starts_with, str_eq, string_of, strs, trim,
};

verus! {

broadcast use vstd::seq_lib::group_to_multiset_ensures;

/// Kind of a dependency.
#[derive(Debug, Clone, Copy, PartialEq, Eq, Structural)]
pub enum DependencyType {
    Link,
    Hierarchy,
    Embed,
}

/// A dependency from one document to another.
#[derive(Debug, Clone)]
pub struct Dependency {
    pub from: String,
    pub to: String,
    pub dep_type: DependencyType,
}

/// A cycle of documents.
#[derive(Debug, Clone)]
pub struct Cycle {
    pub nodes: Vec<String>,
}

impl Cycle {
    pub fn new(nodes: Vec<String>) -> (c: Cycle)
        ensures
            c.nodes@ == nodes@,
    {
        Cycle { nodes }
    }

    /// The nodes joined by arrows, back to the first: `"A → B → C → A"`.
    pub fn to_string(&self) -> (s: String)
        requires
            self.nodes@.len() > 0,
        ensures
            s@ == spec_join(strs(self.nodes@), " → "@) + " → "@ + self.nodes@[0]@,
    {
        let mut s = join(&self.nodes, " → ");
        push_str(&mut s, " → ");
        push_str(&mut s, self.nodes[0].as_str());
        s
    }
}

/// Details of an orphan document.
#[derive(Debug, Clone)]
pub struct OrphanDetails {
    pub id: String,
    pub invalid_parent: Option<String>,
    pub reason: String,
}

/// Outcome of a dependency analysis.
#[derive(Debug, Clone)]
pub struct DepsResult {
    pub dependencies: Vec<Dependency>,
    pub cycles: Vec<Cycle>,
    pub root_nodes: Vec<String>,
    pub leaf_nodes: Vec<String>,
    pub orphan_nodes: Vec<OrphanDetails>,
}

/// The arrow drawn for a kind of dependency.
pub open spec fn arrow(t: DependencyType) -> Seq<char> {
    match t {
        DependencyType::Link => "-->"@,
        DependencyType::Hierarchy => "==>"@,
        DependencyType::Embed => "-.->"@,
    }
}

/// The Mermaid line of a dependency; dots in names become underscores.
pub open spec fn mermaid_line(d: Dependency) -> Seq<char> {
    "    "@ + spec_replace(d.from@, "."@, "_"@) + " "@ + arrow(d.dep_type) + " "@
        + spec_replace(d.to@, "."@, "_"@) + "\n"@
}

/// The Mermaid lines of the dependencies.
pub open spec fn mermaid_lines(ds: Seq<Dependency>) -> Seq<char>
    decreases ds.len(),
{
    if ds.len() == 0 { Seq::empty() } else { mermaid_lines(ds.drop_last()) + mermaid_line(ds.last()) }
}

impl DepsResult {
    pub fn new() -> (r: DepsResult)
        ensures
            r.dependencies@.len() == 0,
            r.cycles@.len() == 0,
            r.root_nodes@.len() == 0,
            r.leaf_nodes@.len() == 0,
            r.orphan_nodes@.len() == 0,
    {
        DepsResult {
            dependencies: Vec::new(),
            cycles: Vec::new(),
            root_nodes: Vec::new(),
            leaf_nodes: Vec::new(),
            orphan_nodes: Vec::new(),
        }
    }

    pub fn has_cycles(&self) -> (r: bool)
        ensures
            r == (self.cycles@.len() > 0),
    {
        self.cycles.len() > 0
    }

    /// A Mermaid `graph TD` of the dependencies in a fenced block.
    pub fn to_mermaid(&self) -> (s: String)
        ensures
            s@ == "```mermaid\ngraph TD\n"@ + mermaid_lines(self.dependencies@) + "```\n"@,
    {
        let mut s = owned("```mermaid\ngraph TD\n");
        let mut i: usize = 0;
        proof {
            reveal_strlit(".");
        }
        while i < self.dependencies.len()
            invariant
                i <= self.dependencies@.len(),
                "."@.len() > 0,
                s@ == "```mermaid\ngraph TD\n"@ + mermaid_lines(self.dependencies@.subrange(0, i as int)),
            decreases self.dependencies@.len() - i,
        {
            let d = &self.dependencies[i];
            let a = match d.dep_type {
                DependencyType::Link => "-->",
                DependencyType::Hierarchy => "==>",
                DependencyType::Embed => "-.->",
            };
            push_str(&mut s, "    ");
            push_str(&mut s, replace_str(d.from.as_str(), ".", "_").as_str());
            push_str(&mut s, " ");
            push_str(&mut s, a);
            push_str(&mut s, " ");
            push_str(&mut s, replace_str(d.to.as_str(), ".", "_").as_str());
            push_str(&mut s, "\n");
            proof {
                let sub = self.dependencies@.subrange(0, i + 1);
                assert(sub.drop_last() =~= self.dependencies@.subrange(0, i as int));
            }
            i = i + 1;
        }
        assert(self.dependencies@.subrange(0, self.dependencies@.len() as int) =~= self.dependencies@);
        push_str(&mut s, "```\n");
        s
    }
}

impl Default for DepsResult {
    fn default() -> (r: DepsResult)
        ensures
            r.dependencies@.len() == 0,
            r.cycles@.len() == 0,
            r.root_nodes@.len() == 0,
            r.leaf_nodes@.len() == 0,
            r.orphan_nodes@.len() == 0,
    {
        DepsResult::new()
    }
}

/// Options of the deps command.
#[derive(Debug, Clone)]
pub struct DepsCommand {
    pub path: Option<String>,
    pub root: Option<String>,
    pub detect_cycles: bool,
    pub mermaid: bool,
    pub depth: Option<usize>,
    pub direction: String,
    pub impact: Option<String>,
    pub orphans: bool,
    pub graph: bool,
    pub format: String,
    pub output: Option<String>,
}

// ─────────────────────────────────────────────────────────────────────────
// The dependencies of the documents
// ─────────────────────────────────────────────────────────────────────────

/// A dependency as (from, to, kind).
pub type DepView = (Seq<char>, Seq<char>, DependencyType);

/// The texts of the dependencies.
pub open spec fn deps_view(ds: Seq<Dependency>) -> Seq<DepView> {
    ds.map_values(|d: Dependency| (d.from@, d.to@, d.dep_type))
}

/// The parent of a document: its trimmed `parent_id` field, unless it is
/// empty or `null`.
pub open spec fn spec_parent(content: Seq<char>) -> Option<Seq<char>> {
    match spec_group(RE_PARENT_ID@, content, 1) {
        Some(p) => {
            let t = spec_trim(p);
            if t.len() == 0 || t == "null"@ { None } else { Some(t) }
        },
        None => None,
    }
}

/// The link dependencies from wiki links `[[target]]` to another document.
pub open spec fn wiki_deps(id: Seq<char>, caps: Seq<Seq<Option<Seq<char>>>>) -> Seq<DepView>
    decreases caps.len(),
{
    if caps.len() == 0 {
        Seq::empty()
    } else {
        let prev = wiki_deps(id, caps.drop_last());
        match cap_group(caps.last(), 1) {
            Some(t) => if t != id { prev.push((id, t, DependencyType::Link)) } else { prev },
            None => prev,
        }
    }
}

/// The target of a Markdown link: the stem of its path.
pub open spec fn link_target_id(t: Seq<char>) -> Seq<char> {
    match spec_file_stem(t) {
        Some(s) => s,
        None => t,
    }
}

/// The link dependencies from Markdown links `[text](file.md)`, external
/// ones (starting with `http`) left out.
pub open spec fn md_deps(id: Seq<char>, caps: Seq<Seq<Option<Seq<char>>>>) -> Seq<DepView>
    decreases caps.len(),
{
    if caps.len() == 0 {
        Seq::empty()
    } else {
        let prev = md_deps(id, caps.drop_last());
        match cap_group(caps.last(), 2) {
            Some(t) => if !spec_starts_with(t, "http"@) && link_target_id(t) != id {
                prev.push((id, link_target_id(t), DependencyType::Link))
            } else {
                prev
            },
            None => prev,
        }
    }
}

/// The dependencies found in one document: its parent first, then its
/// wiki links, then its Markdown links.
pub open spec fn file_deps(id: Seq<char>, c: Seq<char>) -> Seq<DepView> {
    (match spec_parent(c) {
        Some(p) => seq![(p, id, DependencyType::Hierarchy)],
        None => Seq::empty(),
    }) + wiki_deps(id, spec_captures_all(RE_WIKI_LINK@, c)) + md_deps(id, spec_captures_all(RE_MD_LINK_TO_MD@, c))
}

/// The documents as (stem, content) texts.
pub open spec fn files_view(files: Seq<(String, String)>) -> Seq<(Seq<char>, Seq<char>)> {
    files.map_values(|f: (String, String)| (f.0@, f.1@))
}

/// The dependencies of all documents, in order.
pub open spec fn all_deps(fs: Seq<(Seq<char>, Seq<char>)>) -> Seq<DepView>
    decreases fs.len(),
{
    if fs.len() == 0 { Seq::empty() } else { all_deps(fs.drop_last()) + file_deps(fs.last().0, fs.last().1) }
}

/// The stems of the documents, each once, in first-appearance order.
pub open spec fn distinct_ids(fs: Seq<(Seq<char>, Seq<char>)>) -> Seq<Seq<char>>
    decreases fs.len(),
{
    if fs.len() == 0 {
        Seq::empty()
    } else {
        let p = distinct_ids(fs.drop_last());
        if p.contains(fs.last().0) { p } else { p.push(fs.last().0) }
    }
}

/// Some document with this stem has a parent.
pub open spec fn has_parent(fs: Seq<(Seq<char>, Seq<char>)>, n: Seq<char>) -> bool {
    exists|i: int| 0 <= i < fs.len() && (#[trigger] fs[i]).0 == n && spec_parent(fs[i].1) is Some
}

/// Some document has this stem as parent.
pub open spec fn is_parent(fs: Seq<(Seq<char>, Seq<char>)>, n: Seq<char>) -> bool {
    exists|i: int| 0 <= i < fs.len() && spec_parent((#[trigger] fs[i]).1) == Some(n)
}

/// The parent recorded for a stem: that of the last document with this
/// stem and a parent.
pub open spec fn last_parent(fs: Seq<(Seq<char>, Seq<char>)>, n: Seq<char>) -> Option<Seq<char>>
    decreases fs.len(),
{
    if fs.len() == 0 {
        None
    } else if fs.last().0 == n && spec_parent(fs.last().1) is Some {
        spec_parent(fs.last().1)
    } else {
        last_parent(fs.drop_last(), n)
    }
}

/// An orphan as (id, invalid parent, reason).
pub type OrphanView = (Seq<char>, Option<Seq<char>>, Seq<char>);

/// Whether a stem is an orphan, and how: no parent, or a parent that is
/// not a document.
pub open spec fn orphan_of(fs: Seq<(Seq<char>, Seq<char>)>, n: Seq<char>) -> Option<OrphanView> {
    if !has_parent(fs, n) {
        Some((n, None, "no_parent"@))
    } else {
        match last_parent(fs, n) {
            Some(p) => if !distinct_ids(fs).contains(p) { Some((n, Some(p), "missing_parent"@)) } else { None },
            None => None,
        }
    }
}

/// The orphans among the given stems, in their order.
pub open spec fn orphans_among(fs: Seq<(Seq<char>, Seq<char>)>, ns: Seq<Seq<char>>) -> Seq<OrphanView>
    decreases ns.len(),
{
    if ns.len() == 0 {
        Seq::empty()
    } else {
        let p = orphans_among(fs, ns.drop_last());
        match orphan_of(fs, ns.last()) {
            Some(o) => p.push(o),
            None => p,
        }
    }
}

/// The texts of orphan details.
pub open spec fn orphans_view(v: Seq<OrphanDetails>) -> Seq<OrphanView> {
    v.map_values(|o: OrphanDetails| (o.id@, match o.invalid_parent { Some(p) => Some(p@), None => None }, o.reason@))
}

/// The parent of a document.
fn parent_of(content: &str) -> (r: Option<String>)
    ensures
        match r {
            Some(p) => spec_parent(content@) == Some(p@),
            None => spec_parent(content@) is None,
        },
{
    match group(RE_PARENT_ID, content, 1) {
        Some(p) => {
            let t = string_of(&trim(&chars_of(p.as_str())));
            if t.unicode_len() == 0 || str_eq(t.as_str(), "null") { None } else { Some(t) }
        },
        None => None,
    }
}

/// The dependencies found in one document.
fn file_dependencies(id: &str, content: &str) -> (r: Vec<Dependency>)
    ensures
        deps_view(r@) == file_deps(id@, content@),
{
    let mut r: Vec<Dependency> = Vec::new();
    match parent_of(content) {
        Some(p) => {
            r.push(Dependency { from: p, to: owned(id), dep_type: DependencyType::Hierarchy });
        },
        None => {},
    }
    let ghost head = deps_view(r@);
    assert(head =~= match spec_parent(content@) {
        Some(p) => seq![(p, id@, DependencyType::Hierarchy)],
        None => Seq::<DepView>::empty(),
    });
    let wl = captures_all(RE_WIKI_LINK, content);
    let ghost wv = wl@.map_values(|c: Vec<Option<String>>| opt_strs(c@));
    let mut i: usize = 0;
    while i < wl.len()
        invariant
            i <= wl@.len(),
            wv == wl@.map_values(|c: Vec<Option<String>>| opt_strs(c@)),
            deps_view(r@) == head + wiki_deps(id@, wv.subrange(0, i as int)),
        decreases wl@.len() - i,
    {
        proof {
            let sub = wv.subrange(0, i + 1);
            assert(sub.drop_last() =~= wv.subrange(0, i as int));
            assert(sub.last() == opt_strs(wl@[i as int]@));
        }
        match cap_at(&wl[i], 1) {
            Some(t) => {
                if !str_eq(t.as_str(), id) {
                    let ghost r0 = deps_view(r@);
                    r.push(Dependency { from: owned(id), to: t, dep_type: DependencyType::Link });
                    assert(deps_view(r@) =~= r0.push((id@, t@, DependencyType::Link)));
                }
            },
            None => {},
        }
        i = i + 1;
    }
    assert(wv.subrange(0, wl@.len() as int) =~= wv);
    let ghost mid = deps_view(r@);
    let ml = captures_all(RE_MD_LINK_TO_MD, content);
    let ghost mv = ml@.map_values(|c: Vec<Option<String>>| opt_strs(c@));
    let http = chars_of("http");
    let mut j: usize = 0;
    assert(mid + md_deps(id@, mv.subrange(0, 0)) =~= mid);
    while j < ml.len()
        invariant
            j <= ml@.len(),
            mv == ml@.map_values(|c: Vec<Option<String>>| opt_strs(c@)),
            http@ == "http"@,
            deps_view(r@) == mid + md_deps(id@, mv.subrange(0, j as int)),
        decreases ml@.len() - j,
    {
        proof {
            let sub = mv.subrange(0, j + 1);
            assert(sub.drop_last() =~= mv.subrange(0, j as int));
            assert(sub.last() == opt_strs(ml@[j as int]@));
        }
        match cap_at(&ml[j], 2) {
            Some(t) => {
                if !starts_with(&chars_of(t.as_str()), &http) {
                    let tid = match file_stem(t.as_str()) {
                        Some(s) => s,
                        None => t.clone(),
                    };
                    if !str_eq(tid.as_str(), id) {
                        let ghost r0 = deps_view(r@);
                        r.push(Dependency { from: owned(id), to: tid, dep_type: DependencyType::Link });
                        assert(deps_view(r@) =~= r0.push((id@, link_target_id(t@), DependencyType::Link)));
                    }
                }
            },
            None => {},
        }
        j = j + 1;
    }
    assert(mv.subrange(0, ml@.len() as int) =~= mv);
    assert(deps_view(r@) =~= file_deps(id@, content@));
    r
}

/// Whether some document with stem `n` has a parent.
fn has_parent_exec(files: &Vec<(String, String)>, n: &String) -> (r: bool)
    ensures
        r == has_parent(files_view(files@), n@),
{
    let ghost fv = files_view(files@);
    let mut i: usize = 0;
    while i < files.len()
        invariant
            i <= files@.len(),
            fv == files_view(files@),
            forall|j: int| 0 <= j < i ==> !((#[trigger] fv[j]).0 == n@ && spec_parent(fv[j].1) is Some),
        decreases files@.len() - i,
    {
        if str_eq(files[i].0.as_str(), n.as_str()) && parent_of(files[i].1.as_str()).is_some() {
            assert(fv[i as int].0 == n@ && spec_parent(fv[i as int].1) is Some);
            return true;
        }
        i = i + 1;
    }
    false
}

/// Whether some document has `n` as parent.
fn is_parent_exec(files: &Vec<(String, String)>, n: &String) -> (r: bool)
    ensures
        r == is_parent(files_view(files@), n@),
{
    let ghost fv = files_view(files@);
    let mut i: usize = 0;
    while i < files.len()
        invariant
            i <= files@.len(),
            fv == files_view(files@),
            forall|j: int| 0 <= j < i ==> spec_parent((#[trigger] fv[j]).1) != Some(n@),
        decreases files@.len() - i,
    {
        match parent_of(files[i].1.as_str()) {
            Some(p) => {
                if str_eq(p.as_str(), n.as_str()) {
                    assert(spec_parent(fv[i as int].1) == Some(n@));
                    return true;
                }
            },
            None => {},
        }
        i = i + 1;
    }
    false
}

/// The recorded parent of stem `n`.
fn last_parent_exec(files: &Vec<(String, String)>, n: &String) -> (r: Option<String>)
    ensures
        match r {
            Some(p) => last_parent(files_view(files@), n@) == Some(p@),
            None => last_parent(files_view(files@), n@) is None,
        },
{
    let ghost fv = files_view(files@);
    let mut i: usize = files.len();
    assert(fv.subrange(0, files@.len() as int) =~= fv);
    while i > 0
        invariant
            i <= files@.len(),
            fv == files_view(files@),
            last_parent(fv, n@) == last_parent(fv.subrange(0, i as int), n@),
        decreases i,
    {
        let ghost sub = fv.subrange(0, i as int);
        assert(sub.drop_last() =~= fv.subrange(0, i - 1));
        if str_eq(files[i - 1].0.as_str(), n.as_str()) {
            match parent_of(files[i - 1].1.as_str()) {
                Some(p) => {
                    return Some(p);
                },
                None => {},
            }
        }
        i = i - 1;
    }
    None
}

/// The stems of the documents, each once.
fn distinct_ids_exec(files: &Vec<(String, String)>) -> (r: Vec<String>)
    ensures
        strs(r@) == distinct_ids(files_view(files@)),
{
    let ghost fv = files_view(files@);
    let mut r: Vec<String> = Vec::new();
    let mut i: usize = 0;
    while i < files.len()
        invariant
            i <= files@.len(),
            fv == files_view(files@),
            strs(r@) == distinct_ids(fv.subrange(0, i as int)),
        decreases files@.len() - i,
    {
        let ghost sub = fv.subrange(0, i + 1);
        assert(sub.drop_last() =~= fv.subrange(0, i as int));
        if !contains_str(&r, files[i].0.as_str()) {
            let ghost r0 = strs(r@);
            r.push(files[i].0.clone());
            assert(strs(r@) =~= r0.push(fv[i as int].0));
        }
        i = i + 1;
    }
    assert(fv.subrange(0, files@.len() as int) =~= fv);
    r
}

/// The orphan entry of stem `n`, if it is one.
fn orphan_exec(files: &Vec<(String, String)>, ids: &Vec<String>, n: &String) -> (r: Option<OrphanDetails>)
    requires
        strs(ids@) == distinct_ids(files_view(files@)),
    ensures
        match r {
            Some(o) => orphan_of(files_view(files@), n@) == Some(orphans_view(seq![o])[0]),
            None => orphan_of(files_view(files@), n@) is None,
        },
{
    if !has_parent_exec(files, n) {
        Some(OrphanDetails { id: n.clone(), invalid_parent: None, reason: owned("no_parent") })
    } else {
        match last_parent_exec(files, n) {
            Some(p) => {
                if !contains_str(ids, p.as_str()) {
                    Some(OrphanDetails { id: n.clone(), invalid_parent: Some(p), reason: owned("missing_parent") })
                } else {
                    None
                }
            },
            None => None,
        }
    }
}

impl DepsCommand {
    /// The analysis of the documents, given as (file stem, content) pairs:
    /// dependencies in document order; roots (stems without a parent),
    /// leaves (stems no document names as parent) and orphans, all by stem
    /// order; and, when asked, cycles of the dependency graph.
    pub fn run(&self, files: &Vec<(String, String)>) -> (r: DepsResult)
        ensures
            deps_view(r.dependencies@) == all_deps(files_view(files@)),
            exists|s: Seq<Seq<char>>| {
                &&& sorted_strs(s)
                &&& s.to_multiset() == distinct_ids(files_view(files@)).to_multiset()
                &&& strs(r.root_nodes@) == s.filter(|n: Seq<char>| !has_parent(files_view(files@), n))
                &&& strs(r.leaf_nodes@) == s.filter(|n: Seq<char>| !is_parent(files_view(files@), n))
                &&& orphans_view(r.orphan_nodes@) == orphans_among(files_view(files@), s)
            },
            !self.detect_cycles ==> r.cycles@.len() == 0,
            self.detect_cycles ==> dep_extends(dep_names(deps_view(r.dependencies@)), Seq::empty(), r.cycles@,
                dep_found(deps_view(r.dependencies@))),
            forall|k: int| 0 <= k < r.cycles@.len() ==> is_dep_cycle(deps_view(r.dependencies@), strs(#[trigger] r.cycles@[k].nodes@)),
            self.detect_cycles ==> (r.cycles@.len() > 0 <==> exists|c: Seq<Seq<char>>| is_dep_cycle(deps_view(r.dependencies@), c)),
    {
        let ghost fv = files_view(files@);
        let mut result = DepsResult::new();
        // Dependencies.
        let mut i: usize = 0;
        while i < files.len()
            invariant
                i <= files@.len(),
                fv == files_view(files@),
                deps_view(result.dependencies@) == all_deps(fv.subrange(0, i as int)),
                result.cycles@.len() == 0,
                result.root_nodes@.len() == 0,
                result.leaf_nodes@.len() == 0,
                result.orphan_nodes@.len() == 0,
            decreases files@.len() - i,
        {
            let ghost sub = fv.subrange(0, i + 1);
            assert(sub.drop_last() =~= fv.subrange(0, i as int));
            let mut fd = file_dependencies(files[i].0.as_str(), files[i].1.as_str());
            let ghost d0 = deps_view(result.dependencies@);
            let ghost fdv = deps_view(fd@);
            result.dependencies.append(&mut fd);
            assert(deps_view(result.dependencies@) =~= d0 + fdv);
            i = i + 1;
        }
        assert(fv.subrange(0, files@.len() as int) =~= fv);
        // Nodes, in stem order.
        let ids = distinct_ids_exec(files);
        let mut sorted = ids.clone();
        assert(sorted@ == ids@);
        sort_strings(&mut sorted);
        let ghost s = strs(sorted@);
        let mut k: usize = 0;
        proof {
            reveal_with_fuel(Seq::<_>::filter, 1);
            assert(s.subrange(0, 0) =~= Seq::<Seq<char>>::empty());
            assert(strs(result.root_nodes@) =~= Seq::<Seq<char>>::empty());
            assert(strs(result.leaf_nodes@) =~= Seq::<Seq<char>>::empty());
            assert(orphans_view(result.orphan_nodes@) =~= Seq::<OrphanView>::empty());
        }
        while k < sorted.len()
            invariant
                k <= sorted@.len(),
                s == strs(sorted@),
                fv == files_view(files@),
                strs(ids@) == distinct_ids(fv),
                strs(result.root_nodes@) == s.subrange(0, k as int).filter(|n: Seq<char>| !has_parent(fv, n)),
                strs(result.leaf_nodes@) == s.subrange(0, k as int).filter(|n: Seq<char>| !is_parent(fv, n)),
                orphans_view(result.orphan_nodes@) == orphans_among(fv, s.subrange(0, k as int)),
                deps_view(result.dependencies@) == all_deps(fv),
                result.cycles@.len() == 0,
            decreases sorted@.len() - k,
        {
            let n = &sorted[k];
            proof {
                let sub = s.subrange(0, k + 1);
                assert(sub.drop_last() =~= s.subrange(0, k as int));
                assert(sub.last() == n@);
                reveal_with_fuel(Seq::<_>::filter, 1);
            }
            if !has_parent_exec(files, n) {
                let ghost r0 = strs(result.root_nodes@);
                result.root_nodes.push(n.clone());
                assert(strs(result.root_nodes@) =~= r0.push(n@));
            }
            if !is_parent_exec(files, n) {
                let ghost l0 = strs(result.leaf_nodes@);
                result.leaf_nodes.push(n.clone());
                assert(strs(result.leaf_nodes@) =~= l0.push(n@));
            }
            match orphan_exec(files, &ids, n) {
                Some(o) => {
                    let ghost o0 = orphans_view(result.orphan_nodes@);
                    result.orphan_nodes.push(o);
                    assert(orphans_view(result.orphan_nodes@) =~= o0.push(orphans_view(seq![o])[0]));
                },
                None => {},
            }
            k = k + 1;
        }
        assert(s.subrange(0, sorted@.len() as int) =~= s);
        if self.detect_cycles {
            let cycles = find_cycles(&result.dependencies);
            result.cycles = cycles;
        }
        result
    }
}

// ─────────────────────────────────────────────────────────────────────────
// Cycles
// ─────────────────────────────────────────────────────────────────────────

/// A dependency `a → b` exists.
pub open spec fn dep_edge(ds: Seq<DepView>, a: Seq<char>, b: Seq<char>) -> bool {
    exists|i: int| 0 <= i < ds.len() && (#[trigger] ds[i]).0 == a && ds[i].1 == b
}

/// `c` is a cycle of dependencies: consecutive nodes are joined, and the
/// last one leads back to the first.
pub open spec fn is_dep_cycle(ds: Seq<DepView>, c: Seq<Seq<char>>) -> bool {
    &&& c.len() > 0
    &&& forall|k: int| 0 <= k < c.len() - 1 ==> dep_edge(ds, #[trigger] c[k], c[k + 1])
    &&& dep_edge(ds, c.last(), c[0])
}

/// The adjacency of a graph on positions: `adj[a]` lists the successors of `a`.
pub open spec fn adj_ok(ds: Seq<DepView>, names: Seq<Seq<char>>, adj: Seq<Seq<usize>>) -> bool {
    &&& adj.len() == names.len()
    &&& forall|a: int, k: int| 0 <= a < adj.len() && 0 <= k < adj[a].len() ==>
            (#[trigger] adj[a][k]) < names.len() && dep_edge(ds, names[a], names[adj[a][k] as int])
}

/// Consecutive positions of `p` are adjacent.
pub open spec fn adj_path(ds: Seq<DepView>, names: Seq<Seq<char>>, p: Seq<usize>) -> bool {
    &&& forall|i: int| 0 <= i < p.len() ==> (#[trigger] p[i]) < names.len()
    &&& forall|i: int| #![trigger p[i]] 0 <= i < p.len() - 1 ==> dep_edge(ds, names[p[i] as int], names[p[i + 1] as int])
}

/// Index of `t` in `v`.
fn index_of(v: &Vec<String>, t: &String) -> (r: Option<usize>)
    ensures
        match r {
            Some(i) => i < v@.len() && v@[i as int]@ == t@,
            None => !strs(v@).contains(t@),
        },
        first_pos(strs(v@), t@) == match r { Some(i) => Some(i as int), None => None::<int> },
{
    let mut i: usize = 0;
    while i < v.len()
        invariant
            i <= v@.len(),
            forall|j: int| 0 <= j < i ==> v@[j]@ != t@,
        decreases v@.len() - i,
    {
        if str_eq(v[i].as_str(), t.as_str()) {
            proof {
                lemma_first_pos(strs(v@), t@, i as int);
            }
            return Some(i);
        }
        i = i + 1;
    }
    proof {
        if strs(v@).contains(t@) {
            let j = choose|j: int| 0 <= j < strs(v@).len() && strs(v@)[j] == t@;
            assert(v@[j]@ == t@);
        }
    }
    None
}

/// The names of the dependencies up to the `n`-th, sources (`second`
/// false) or targets, each appended to `acc` when not yet there.
pub open spec fn add_names(ds: Seq<DepView>, n: int, acc: Seq<Seq<char>>, second: bool) -> Seq<Seq<char>>
    decreases n,
{
    if n <= 0 {
        acc
    } else {
        let prev = add_names(ds, n - 1, acc, second);
        let x = if second { ds[n - 1].1 } else { ds[n - 1].0 };
        if prev.contains(x) { prev } else { prev.push(x) }
    }
}

/// The sources of the dependencies, each once, in first-appearance order.
pub open spec fn dep_sources(ds: Seq<DepView>) -> Seq<Seq<char>> {
    add_names(ds, ds.len() as int, Seq::empty(), false)
}

/// The sources, then the targets that are not sources, each once.
pub open spec fn dep_names(ds: Seq<DepView>) -> Seq<Seq<char>> {
    add_names(ds, ds.len() as int, dep_sources(ds), true)
}

/// The successors of the name at position `a`: for each of the first `n`
/// dependencies from it, the first position of its target among the names.
pub open spec fn dep_succ(ds: Seq<DepView>, names: Seq<Seq<char>>, a: int, n: int) -> Seq<usize>
    decreases n,
{
    if n <= 0 {
        Seq::empty()
    } else {
        let prev = dep_succ(ds, names, a, n - 1);
        if ds[n - 1].0 == names[a] {
            match first_pos(names, ds[n - 1].1) {
                Some(b) => prev.push(b as usize),
                None => prev,
            }
        } else {
            prev
        }
    }
}

/// The successor lists of the names, by position.
pub open spec fn dep_adj(ds: Seq<DepView>) -> Seq<Seq<usize>> {
    Seq::new(dep_names(ds).len(), |a: int| dep_succ(ds, dep_names(ds), a, ds.len() as int))
}

/// The cycles, as lists of positions among the names, that a depth-first
/// search meets when started from each source in turn.
pub open spec fn dep_found(ds: Seq<DepView>) -> Seq<Seq<usize>> {
    dfs_roots(dep_adj(ds), 0, dep_sources(ds).len() as int, unmarked(dep_names(ds).len())).1
}

/// `after` is `before` followed by one cycle for each list of positions in
/// `found`, holding the names at those positions.
pub open spec fn dep_extends(names: Seq<Seq<char>>, before: Seq<Cycle>, after: Seq<Cycle>, found: Seq<Seq<usize>>) -> bool {
    &&& after.len() == before.len() + found.len()
    &&& forall|j: int| 0 <= j < before.len() ==> #[trigger] after[j] == before[j]
    &&& forall|j: int| before.len() <= j < after.len() ==>
            strs(#[trigger] after[j].nodes@) == found[j - before.len()].map_values(|p: usize| names[p as int])
}

proof fn lemma_dep_extends_push(names: Seq<Seq<char>>, before: Seq<Cycle>, mid: Seq<Cycle>, found: Seq<Seq<usize>>,
    cyc: Cycle, c: Seq<usize>)
    requires
        dep_extends(names, before, mid, found),
        strs(cyc.nodes@) == c.map_values(|p: usize| names[p as int]),
    ensures
        dep_extends(names, before, mid.push(cyc), found.push(c)),
{
    let after = mid.push(cyc);
    let f2 = found.push(c);
    assert forall|j: int| 0 <= j < before.len() implies #[trigger] after[j] == before[j] by {
        assert(after[j] == mid[j]);
    }
    assert forall|j: int| before.len() <= j < after.len() implies
        strs(#[trigger] after[j].nodes@) == f2[j - before.len()].map_values(|p: usize| names[p as int]) by {
        if j < mid.len() {
            assert(after[j] == mid[j]);
            assert(f2[j - before.len()] == found[j - before.len()]);
        } else {
            assert(after[j] == cyc);
        }
    }
}

proof fn lemma_dep_extends_trans(names: Seq<Seq<char>>, a: Seq<Cycle>, b: Seq<Cycle>, c: Seq<Cycle>,
    f1: Seq<Seq<usize>>, f2: Seq<Seq<usize>>)
    requires
        dep_extends(names, a, b, f1),
        dep_extends(names, b, c, f2),
    ensures
        dep_extends(names, a, c, f1 + f2),
{
    let f = f1 + f2;
    assert forall|j: int| 0 <= j < a.len() implies #[trigger] c[j] == a[j] by {
        assert(c[j] == b[j]);
        assert(b[j] == a[j]);
    }
    assert forall|j: int| a.len() <= j < c.len() implies
        strs(#[trigger] c[j].nodes@) == f[j - a.len()].map_values(|p: usize| names[p as int]) by {
        if j < b.len() {
            assert(c[j] == b[j]);
            assert(f[j - a.len()] == f1[j - a.len()]);
        } else {
            assert(f[j - a.len()] == f2[j - b.len()]);
        }
    }
}

/// The cycles met by a depth-first search from each source of a
/// dependency, sources taken in first-appearance order.
#[verifier::rlimit(60)]
fn find_cycles(deps: &Vec<Dependency>) -> (r: Vec<Cycle>)
    ensures
        forall|k: int| 0 <= k < r@.len() ==> is_dep_cycle(deps_view(deps@), strs(#[trigger] r@[k].nodes@)),
        dep_extends(dep_names(deps_view(deps@)), Seq::empty(), r@, dep_found(deps_view(deps@))),
        r@.len() > 0 <==> exists|c: Seq<Seq<char>>| is_dep_cycle(deps_view(deps@), c),
{
    let ghost ds = deps_view(deps@);
    // Names: sources first, then targets, each once.
    let mut names: Vec<String> = Vec::new();
    let mut i: usize = 0;
    while i < deps.len()
        invariant
            i <= deps@.len(),
            ds == deps_view(deps@),
            strs(names@) == add_names(ds, i as int, Seq::empty(), false),
        decreases deps@.len() - i,
    {
        let ghost n0 = strs(names@);
        if !contains_str(&names, deps[i].from.as_str()) {
            names.push(deps[i].from.clone());
            assert(strs(names@) =~= n0.push(ds[i as int].0));
        }
        i = i + 1;
    }
    let ghost srcs = strs(names@);
    let n_sources = names.len();
    i = 0;
    while i < deps.len()
        invariant
            i <= deps@.len(),
            ds == deps_view(deps@),
            n_sources <= names@.len(),
            srcs.len() == n_sources,
            strs(names@) == add_names(ds, i as int, srcs, true),
        decreases deps@.len() - i,
    {
        let ghost n0 = strs(names@);
        if !contains_str(&names, deps[i].to.as_str()) {
            names.push(deps[i].to.clone());
            assert(strs(names@) =~= n0.push(ds[i as int].1));
        }
        i = i + 1;
    }
    // Adjacency, in dependency order.
    let ghost nv = strs(names@);
    assert(nv == dep_names(ds));
    let mut adj: Vec<Vec<usize>> = Vec::new();
    let mut a: usize = 0;
    while a < names.len()
        invariant
            a <= names@.len(),
            nv == strs(names@),
            ds == deps_view(deps@),
            adj@.len() == a,
            forall|x: int, k: int| 0 <= x < adj@.len() && 0 <= k < adj@[x]@.len() ==>
                (#[trigger] adj@[x]@[k]) < nv.len() && dep_edge(ds, nv[x], nv[adj@[x]@[k] as int]),
            forall|x: int| 0 <= x < adj@.len() ==> (#[trigger] adj@[x])@ == dep_succ(ds, nv, x, ds.len() as int),
        decreases names@.len() - a,
    {
        let mut succ: Vec<usize> = Vec::new();
        let mut j: usize = 0;
        while j < deps.len()
            invariant
                j <= deps@.len(),
                a < names@.len(),
                nv == strs(names@),
                ds == deps_view(deps@),
                forall|k: int| 0 <= k < succ@.len() ==>
                    (#[trigger] succ@[k]) < nv.len() && dep_edge(ds, nv[a as int], nv[succ@[k] as int]),
                succ@ == dep_succ(ds, nv, a as int, j as int),
            decreases deps@.len() - j,
        {
            if str_eq(deps[j].from.as_str(), names[a].as_str()) {
                match index_of(&names, &deps[j].to) {
                    Some(b) => {
                        proof {
                            assert(ds[j as int].0 == nv[a as int] && ds[j as int].1 == nv[b as int]);
                        }
                        succ.push(b);
                    },
                    None => {},
                }
            }
            j = j + 1;
        }
        let ghost a0 = adj@;
        adj.push(succ);
        proof {
            assert forall|x: int| 0 <= x < adj@.len() implies (#[trigger] adj@[x])@ == dep_succ(ds, nv, x, ds.len() as int) by {
                if x < a0.len() {
                    assert(adj@[x] == a0[x]);
                }
            }
        }
        a = a + 1;
    }
    let ghost av = adj@.map_values(|x: Vec<usize>| x@);
    assert(adj_ok(ds, nv, av));
    assert(av =~= dep_adj(ds));
    let mut visited: Vec<bool> = Vec::new();
    let mut q: usize = 0;
    while q < names.len()
        invariant
            q <= names@.len(),
            visited@ =~= unmarked(q as nat),
        decreases names@.len() - q,
    {
        visited.push(false);
        q = q + 1;
    }
    let ghost tot = dfs_roots(av, 0, n_sources as int, visited@);
    let ghost mut found: Seq<Seq<usize>> = Seq::empty();
    let mut path: Vec<usize> = Vec::new();
    let mut cycles: Vec<Cycle> = Vec::new();
    let mut s: usize = 0;
    assert(found + tot.1 =~= tot.1);
    while s < n_sources
        invariant
            s <= n_sources <= names@.len(),
            nv == strs(names@),
            av == adj@.map_values(|x: Vec<usize>| x@),
            adj_ok(ds, nv, av),
            visited@.len() == names@.len(),
            path@.len() == 0,
            forall|k: int| 0 <= k < cycles@.len() ==> is_dep_cycle(ds, strs(#[trigger] cycles@[k].nodes@)),
            dfs_roots(av, s as int, n_sources as int, visited@).0 == tot.0,
            found + dfs_roots(av, s as int, n_sources as int, visited@).1 == tot.1,
            dep_extends(nv, Seq::empty(), cycles@, found),
        decreases n_sources - s,
    {
        if !visited[s] {
            let ghost vb = visited@;
            let ghost cb = cycles@;
            proof {
                lemma_count_false_le(vb);
                assert(path@ =~= Seq::<usize>::empty());
            }
            dfs(s, &adj, &names, &mut visited, &mut path, &mut cycles, Ghost(ds), Ghost(vb.len()));
            proof {
                let d = dfs_from(av, s, vb, Seq::empty(), vb.len());
                let rest = dfs_roots(av, s + 1, n_sources as int, d.0);
                lemma_dep_extends_trans(nv, Seq::empty(), cb, cycles@, found, d.1);
                assert(found + d.1 + rest.1 =~= found + (d.1 + rest.1));
                found = found + d.1;
            }
        }
        s = s + 1;
    }
    proof {
        assert(found =~= tot.1);
        if cycles@.len() > 0 {
            assert(is_dep_cycle(ds, strs(cycles@[0].nodes@)));
        } else {
            assert forall|c: Seq<Seq<char>>| !is_dep_cycle(ds, c) by {
                if is_dep_cycle(ds, c) {
                    law_dep_cycle_found(ds, c);
                }
            }
        }
    }
    cycles
}

/// Depth-first search from `u`; a successor on the current path closes a
/// cycle, recorded from that successor on.
#[verifier::rlimit(80)]
#[verifier::spinoff_prover]
fn dfs(
    u: usize,
    adj: &Vec<Vec<usize>>,
    names: &Vec<String>,
    visited: &mut Vec<bool>,
    path: &mut Vec<usize>,
    cycles: &mut Vec<Cycle>,
    Ghost(ds): Ghost<Seq<DepView>>,
    Ghost(budget): Ghost<nat>,
)
    requires
        budget >= count_false(old(visited)@),
        adj_ok(ds, strs(names@), adj@.map_values(|x: Vec<usize>| x@)),
        u < names@.len(),
        old(visited)@.len() == names@.len(),
        !old(visited)@[u as int],
        adj_path(ds, strs(names@), old(path)@),
        old(path)@.len() > 0 ==> dep_edge(ds, names@[old(path)@.last() as int]@, names@[u as int]@),
        forall|k: int| 0 <= k < old(cycles)@.len() ==> is_dep_cycle(ds, strs(#[trigger] old(cycles)@[k].nodes@)),
    ensures
        final(visited)@.len() == names@.len(),
        forall|k: int| 0 <= k < old(visited)@.len() && old(visited)@[k] ==> final(visited)@[k],
        final(path)@ == old(path)@,
        forall|k: int| 0 <= k < final(cycles)@.len() ==> is_dep_cycle(ds, strs(#[trigger] final(cycles)@[k].nodes@)),
        final(visited)@ == dfs_from(adj@.map_values(|x: Vec<usize>| x@), u, old(visited)@, old(path)@, budget).0,
        dep_extends(strs(names@), old(cycles)@, final(cycles)@,
            dfs_from(adj@.map_values(|x: Vec<usize>| x@), u, old(visited)@, old(path)@, budget).1),
    decreases budget,
{
    let ghost nv = strs(names@);
    let ghost av = adj@.map_values(|x: Vec<usize>| x@);
    let ghost v0 = visited@;
    let ghost p0 = path@;
    let ghost c0 = cycles@;
    visited.set(u, true);
    proof {
        lemma_count_false_set(v0, u as int);
    }
    let ghost v1 = visited@;
    path.push(u);
    assert(adj_path(ds, nv, path@)) by {
        assert forall|i: int| #![trigger path@[i]] 0 <= i < path@.len() - 1
            implies dep_edge(ds, nv[path@[i] as int], nv[path@[i + 1] as int]) by {
            if i < p0.len() - 1 {
                assert(path@[i] == p0[i] && path@[i + 1] == p0[i + 1]);
            } else {
                assert(path@[i] == p0.last() && path@[i + 1] == u);
            }
        }
    }
    let ghost pu = path@;
    let ghost tot = dfs_succ(av, u, 0, v1, pu, budget);
    let ghost mut found: Seq<Seq<usize>> = Seq::empty();
    proof {
        assert(v1 == v0.update(u as int, true));
        assert(tot == dfs_from(av, u, v0, p0, budget));
        assert(found + tot.1 =~= tot.1);
    }
    let mut k: usize = 0;
    while k < adj[u].len()
        invariant
            nv == strs(names@),
            av == adj@.map_values(|x: Vec<usize>| x@),
            adj_ok(ds, nv, av),
            u < names@.len(),
            visited@.len() == names@.len(),
            forall|j: int| 0 <= j < v1.len() && v1[j] ==> visited@[j],
            forall|j: int| 0 <= j < v0.len() && v0[j] ==> visited@[j],
            visited@[u as int],
            v0.len() == names@.len(),
            v1.len() == names@.len(),
            budget >= count_false(v0),
            budget > 0,
            count_false(v1) < count_false(v0),
            path@ == pu,
            pu == p0.push(u),
            adj_path(ds, nv, path@),
            forall|j: int| 0 <= j < cycles@.len() ==> is_dep_cycle(ds, strs(#[trigger] cycles@[j].nodes@)),
            dfs_succ(av, u, k as int, visited@, pu, budget).0 == tot.0,
            found + dfs_succ(av, u, k as int, visited@, pu, budget).1 == tot.1,
            dep_extends(nv, c0, cycles@, found),
        decreases adj@[u as int]@.len() - k,
    {
        let v = adj[u][k];
        proof {
            assert(av[u as int][k as int] == v);
            assert(v < nv.len() && dep_edge(ds, nv[u as int], nv[v as int]));
        }
        let ghost vb = visited@;
        let ghost cb = cycles@;
        if !visited[v] {
            proof {
                lemma_count_false_mono(v1, visited@);
            }
            dfs(v, adj, names, visited, path, cycles, Ghost(ds), Ghost((budget - 1) as nat));
            proof {
                let d = dfs_from(av, v, vb, pu, (budget - 1) as nat);
                let rest = dfs_succ(av, u, k + 1, d.0, pu, budget);
                lemma_dep_extends_trans(nv, c0, cb, cycles@, found, d.1);
                assert(found + d.1 + rest.1 =~= found + (d.1 + rest.1));
                found = found + d.1;
            }
        } else {
            let mut start: usize = 0;
            let mut hit = false;
            while start < path.len() && !hit
                invariant
                    start <= path@.len(),
                    hit ==> start < path@.len() && path@[start as int] == v,
                    forall|j: int| 0 <= j < start ==> path@[j] != v,
                decreases path@.len() - start, (if hit { 0int } else { 1int }),
            {
                if path[start] == v {
                    hit = true;
                } else {
                    start = start + 1;
                }
            }
            if hit {
                proof {
                    lemma_first_pos(path@, v, start as int);
                }
                let mut nodes: Vec<String> = Vec::new();
                let mut t = start;
                while t < path.len()
                    invariant
                        start <= t <= path@.len(),
                        start < path@.len(),
                        nv == strs(names@),
                        adj_path(ds, nv, path@),
                        path@.last() == u,
                        path@[start as int] == v,
                        dep_edge(ds, nv[u as int], nv[v as int]),
                        strs(nodes@) == path@.subrange(start as int, t as int).map_values(|p: usize| nv[p as int]),
                    decreases path@.len() - t,
                {
                    let ghost n0 = strs(nodes@);
                    proof {
                        assert(path@[t as int] < nv.len());
                        assert(nv[path@[t as int] as int] == names@[path@[t as int] as int]@);
                        assert(path@.subrange(start as int, t + 1) =~= path@.subrange(start as int, t as int).push(path@[t as int]));
                    }
                    nodes.push(names[path[t]].clone());
                    assert(strs(nodes@) =~= n0.push(names@[path@[t as int] as int]@));
                    assert(strs(nodes@) =~= path@.subrange(start as int, t + 1).map_values(|p: usize| nv[p as int]));
                    t = t + 1;
                }
                proof {
                    let c = strs(nodes@);
                    let sub = path@.subrange(start as int, path@.len() as int);
                    assert(c.len() == sub.len());
                    assert(c[0] == nv[v as int]);
                    assert(c.last() == nv[u as int]);
                    assert forall|j: int| 0 <= j < c.len() - 1 implies dep_edge(ds, #[trigger] c[j], c[j + 1]) by {
                        assert(path@[start + j] == sub[j] && path@[start + j + 1] == sub[j + 1]);
                    }
                }
                let ghost nodes_v = strs(nodes@);
                let cyc = Cycle::new(nodes);
                cycles.push(cyc);
                assert forall|j: int| 0 <= j < cycles@.len() implies is_dep_cycle(ds, strs(#[trigger] cycles@[j].nodes@)) by {
                    if j < cb.len() {
                        assert(cycles@[j] == cb[j]);
                    }
                }
                proof {
                    let c = pu.subrange(start as int, pu.len() as int);
                    let rest = dfs_succ(av, u, k + 1, vb, pu, budget);
                    assert(strs(cyc.nodes@) == nodes_v);
                    lemma_dep_extends_push(nv, c0, cb, found, cyc, c);
                    assert(found.push(c) + rest.1 =~= found + (seq![c] + rest.1));
                    found = found.push(c);
                }
            } else {
                proof {
                    assert(!(exists|i: int| 0 <= i < path@.len() && path@[i] == v));
                }
            }
        }
        k = k + 1;
    }
    proof {
        assert(found =~= tot.1);
    }
    path.pop();
    assert(path@ =~= p0);
}

/// Whether a document's `parent_id`, trimmed, is `id`.
pub open spec fn is_child_of(content: Seq<char>, id: Seq<char>) -> bool {
    match spec_group(RE_PARENT_ID@, content, 1) {
        Some(p) => spec_trim(p) == id,
        None => false,
    }
}

/// Whether some wiki link of a document, trimmed, contains `id`.
pub open spec fn references(content: Seq<char>, id: Seq<char>) -> bool {
    exists|k: int| 0 <= k < spec_captures_all(RE_WIKI_LINK@, content).len()
        && spec_contains(spec_trim(crate::links::group_or_empty(#[trigger] spec_captures_all(RE_WIKI_LINK@, content)[k], 1)), id)
}

/// The stems, in document order, of the documents that pass a test.
pub open spec fn stems_where(files: Seq<(Seq<char>, Seq<char>)>, id: Seq<char>, children: bool) -> Seq<Seq<char>>
    decreases files.len(),
{
    if files.len() == 0 {
        Seq::empty()
    } else {
        let p = stems_where(files.drop_last(), id, children);
        let f = files.last();
        if (if children { is_child_of(f.1, id) } else { references(f.1, id) }) { p.push(f.0) } else { p }
    }
}

/// The pairs of (stem, content) as texts.
pub open spec fn pairs_texts(v: Seq<(String, String)>) -> Seq<(Seq<char>, Seq<char>)> {
    v.map_values(|x: (String, String)| (x.0@, x.1@))
}

/// Whether some wiki link of a text, trimmed, contains `id`.
fn references_exec(content: &str, id: &str) -> (r: bool)
    ensures
        r == references(content@, id@),
{
    let caps = captures_all(RE_WIKI_LINK, content);
    let ghost cv = spec_captures_all(RE_WIKI_LINK@, content@);
    let idv = chars_of(id);
    let mut k: usize = 0;
    while k < caps.len()
        invariant
            k <= caps@.len(),
            caps@.map_values(|c: Vec<Option<String>>| opt_strs(c@)) == cv,
            cv == spec_captures_all(RE_WIKI_LINK@, content@),
            idv@ == id@,
            forall|j: int| 0 <= j < k ==> !spec_contains(spec_trim(crate::links::group_or_empty(#[trigger] cv[j], 1)), id@),
        decreases caps@.len() - k,
    {
        assert(opt_strs(caps@[k as int]@) == cv[k as int]);
        let g = match cap_at(&caps[k], 1) { Some(t) => t, None => String::new() };
        assert(g@ == crate::links::group_or_empty(cv[k as int], 1));
        if find(&trim(&chars_of(g.as_str())), &idv).is_some() {
            assert(spec_contains(spec_trim(crate::links::group_or_empty(spec_captures_all(RE_WIKI_LINK@, content@)[k as int], 1)), id@));
            return true;
        }
        k = k + 1;
    }
    false
}

impl DepsCommand {
    /// The impact of changing a document: the stems of its direct children
    /// (documents whose `parent_id` is it) and of the documents whose wiki
    /// links mention it, both in document order; documents given as
    /// (stem, content).
    pub fn impact(&self, files: &Vec<(String, String)>, doc_id: &str) -> (r: (Vec<String>, Vec<String>))
        ensures
            strs(r.0@) == stems_where(pairs_texts(files@), doc_id@, true),
            strs(r.1@) == stems_where(pairs_texts(files@), doc_id@, false),
    {
        let ghost fv = pairs_texts(files@);
        let mut children: Vec<String> = Vec::new();
        let mut referencing: Vec<String> = Vec::new();
        let mut i: usize = 0;
        while i < files.len()
            invariant
                i <= files@.len(),
                fv == pairs_texts(files@),
                strs(children@) == stems_where(fv.subrange(0, i as int), doc_id@, true),
                strs(referencing@) == stems_where(fv.subrange(0, i as int), doc_id@, false),
            decreases files@.len() - i,
        {
            let ghost sub = fv.subrange(0, i + 1);
            assert(sub.drop_last() =~= fv.subrange(0, i as int));
            assert(sub.last() == (files@[i as int].0@, files@[i as int].1@));
            let child = match group(RE_PARENT_ID, files[i].1.as_str(), 1) {
                Some(p) => str_eq(string_of(&trim(&chars_of(p.as_str()))).as_str(), doc_id),
                None => false,
            };
            if child {
                let ghost c0 = strs(children@);
                children.push(files[i].0.clone());
                assert(strs(children@) =~= c0.push(files@[i as int].0@));
            }
            if references_exec(files[i].1.as_str(), doc_id) {
                let ghost r0 = strs(referencing@);
                referencing.push(files[i].0.clone());
                assert(strs(referencing@) =~= r0.push(files@[i as int].0@));
            }
            i = i + 1;
        }
        assert(fv.subrange(0, files@.len() as int) =~= fv);
        (children, referencing)
    }
}

/// A stem is listed among the direct children of `id` exactly when some
/// document with that stem has a `parent_id` field which, trimmed, is `id`.
pub proof fn law_impact_children(files: Seq<(Seq<char>, Seq<char>)>, id: Seq<char>, x: Seq<char>)
    ensures
        stems_where(files, id, true).contains(x)
            <==> exists|i: int| 0 <= i < files.len() && (#[trigger] files[i]).0 == x
                && (spec_group(RE_PARENT_ID@, files[i].1, 1) is Some && spec_trim(spec_group(RE_PARENT_ID@, files[i].1, 1).unwrap()) == id),
    decreases files.len(),
{
    if files.len() > 0 {
        let d = files.drop_last();
        law_impact_children(d, id, x);
        let p = stems_where(d, id, true);
        let r = stems_where(files, id, true);
        let f = files.last();
        let child = spec_group(RE_PARENT_ID@, f.1, 1) is Some && spec_trim(spec_group(RE_PARENT_ID@, f.1, 1).unwrap()) == id;
        assert(is_child_of(f.1, id) == child);
        if child {
            assert(r == p.push(f.0));
            assert(r[p.len() as int] == f.0);
        } else {
            assert(r == p);
        }
        if p.contains(x) {
            let k = choose|k: int| 0 <= k < p.len() && p[k] == x;
            assert(r[k] == x);
        }
        if r.contains(x) && !p.contains(x) {
            let k = choose|k: int| 0 <= k < r.len() && r[k] == x;
            if k < p.len() {
                assert(r[k] == p[k]);
            }
            assert(files[files.len() - 1].0 == x);
        }
        if exists|i: int| 0 <= i < files.len() && (#[trigger] files[i]).0 == x
            && (spec_group(RE_PARENT_ID@, files[i].1, 1) is Some && spec_trim(spec_group(RE_PARENT_ID@, files[i].1, 1).unwrap()) == id) {
            let i = choose|i: int| 0 <= i < files.len() && (#[trigger] files[i]).0 == x
                && (spec_group(RE_PARENT_ID@, files[i].1, 1) is Some && spec_trim(spec_group(RE_PARENT_ID@, files[i].1, 1).unwrap()) == id);
            if i < files.len() - 1 {
                assert(d[i] == files[i]);
            }
        }
        if exists|i: int| 0 <= i < d.len() && (#[trigger] d[i]).0 == x
            && (spec_group(RE_PARENT_ID@, d[i].1, 1) is Some && spec_trim(spec_group(RE_PARENT_ID@, d[i].1, 1).unwrap()) == id) {
            let i = choose|i: int| 0 <= i < d.len() && (#[trigger] d[i]).0 == x
                && (spec_group(RE_PARENT_ID@, d[i].1, 1) is Some && spec_trim(spec_group(RE_PARENT_ID@, d[i].1, 1).unwrap()) == id);
            assert(files[i] == d[i]);
        }
    }
}

} // verus!
