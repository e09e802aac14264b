//! Modules of the documentation: their documents, words and health.

use vstd::prelude::*;
use crate::patterns::{
    cap_at, captures_all, group, opt_strs, spec_captures_all, spec_group, spec_split_pieces, split_pieces,
    weave, weave_exec, RE_DOCUMENT_ID, RE_MODULE,
};
use crate::links::group_or_empty;
use crate::text::{
    chars_of, owned, push_str, spec_contains, spec_trim, spec_word_count, str_eq, string_of, strs, trim,
    word_count, find,
};

verus! {

/// A module and its figures.
#[derive(Debug, Clone)]
pub struct ModuleInfo {
    pub id: String,
    pub name: String,
    pub document_count: usize,
    pub word_count: usize,
    pub health_score: u8,
    pub children: Vec<String>,
}

/// Average words per document, 0 without documents.
pub open spec fn spec_avg(words: nat, docs: nat) -> nat {
    if docs == 0 { 0 } else { words / docs }
}

impl ModuleInfo {
    pub fn new(id: &str, name: &str) -> (m: ModuleInfo)
        ensures
            m.id@ == id@,
            m.name@ == name@,
            m.document_count == 0,
            m.word_count == 0,
            m.health_score == 100,
            m.children@.len() == 0,
    {
        ModuleInfo { id: owned(id), name: owned(name), document_count: 0, word_count: 0, health_score: 100, children: Vec::new() }
    }

    pub fn avg_words(&self) -> (n: usize)
        ensures
            n == spec_avg(self.word_count as nat, self.document_count as nat),
    {
        if self.document_count == 0 { 0 } else { self.word_count / self.document_count }
    }
}

/// The modules found.
#[derive(Debug, Clone)]
pub struct ModuleResult {
    pub modules: Vec<ModuleInfo>,
}

/// Total documents of the modules.
pub open spec fn sum_documents(ms: Seq<ModuleInfo>) -> nat
    decreases ms.len(),
{
    if ms.len() == 0 { 0 } else { sum_documents(ms.drop_last()) + ms.last().document_count as nat }
}

impl ModuleResult {
    pub fn new() -> (r: ModuleResult)
        ensures
            r.modules@.len() == 0,
    {
        ModuleResult { modules: Vec::new() }
    }

    pub fn add_module(&mut self, module: ModuleInfo)
        ensures
            final(self).modules@ == old(self).modules@.push(module),
    {
        self.modules.push(module);
    }

    pub fn total_documents(&self) -> (n: usize)
        requires
            sum_documents(self.modules@) <= usize::MAX,
        ensures
            n == sum_documents(self.modules@),
    {
        let mut n: usize = 0;
        let mut i: usize = 0;
        while i < self.modules.len()
            invariant
                i <= self.modules@.len(),
                sum_documents(self.modules@) <= usize::MAX,
                n == sum_documents(self.modules@.subrange(0, i as int)),
            decreases self.modules@.len() - i,
        {
            proof {
                let sub = self.modules@.subrange(0, i + 1);
                assert(sub.drop_last() =~= self.modules@.subrange(0, i as int));
                lemma_sum_prefix(self.modules@, i + 1);
            }
            n = n + self.modules[i].document_count;
            i = i + 1;
        }
        assert(self.modules@.subrange(0, self.modules@.len() as int) =~= self.modules@);
        n
    }
}

proof fn lemma_sum_prefix(ms: Seq<ModuleInfo>, n: int)
    requires
        0 <= n <= ms.len(),
    ensures
        sum_documents(ms.subrange(0, n)) <= sum_documents(ms),
    decreases ms.len() - n,
{
    if n < ms.len() {
        lemma_sum_prefix(ms.drop_last(), n);
        assert(ms.drop_last().subrange(0, n) =~= ms.subrange(0, n));
    } else {
        assert(ms.subrange(0, n) =~= ms);
    }
}

impl Default for ModuleResult {
    fn default() -> (r: ModuleResult)
        ensures
            r.modules@.len() == 0,
    {
        ModuleResult::new()
    }
}

/// Options of the module command.
#[derive(Debug, Clone)]
pub struct ModuleCommand {
    pub module_id: Option<String>,
    pub path: Option<String>,
    pub list: bool,
    pub json: bool,
    pub create: Option<String>,
    pub move_doc: Option<String>,
    pub to: Option<String>,
}

/// Health of a module from its average words per document.
pub open spec fn health_for(avg: nat) -> u8 {
    if avg <= 50 { 40 } else if avg <= 200 { 70 } else if avg <= 500 { 90 } else { 100 }
}

/// The module of a document: its trimmed `module` field, or `sin_modulo`.
pub open spec fn module_of(content: Seq<char>) -> Seq<char> {
    match spec_group(RE_MODULE@, content, 1) {
        Some(m) => spec_trim(m),
        None => "sin_modulo"@,
    }
}

/// A module as (name, documents, words, children).
pub type ModView = (Seq<char>, nat, nat, Seq<Seq<char>>);

/// The modules of the documents (path, content), in first-appearance
/// order; the paths of a module's documents are kept when it is the one
/// asked for.
pub open spec fn spec_modules(filter: Option<Seq<char>>, docs: Seq<(Seq<char>, Seq<char>)>) -> Seq<ModView>
    decreases docs.len(),
{
    if docs.len() == 0 {
        Seq::empty()
    } else {
        let p = spec_modules(filter, docs.drop_last());
        let (path, c) = docs.last();
        let m = module_of(c);
        let w = spec_word_count(c, false);
        let keep = filter == Some(m);
        match index_of_module(p, m) {
            Some(i) => {
                let e = p[i];
                p.update(i, (m, e.1 + 1, e.2 + w, if keep { e.3.push(path) } else { e.3 }))
            },
            None => p.push((m, 1, w, if keep { seq![path] } else { Seq::empty() })),
        }
    }
}

/// Position of a module name.
pub open spec fn index_of_module(p: Seq<ModView>, m: Seq<char>) -> Option<int>
    decreases p.len(),
{
    if p.len() == 0 {
        None
    } else {
        match index_of_module(p.drop_last(), m) {
            Some(i) => Some(i),
            None => if p.last().0 == m { Some(p.len() - 1) } else { None },
        }
    }
}

/// The view of a module's figures.
pub open spec fn mod_view(m: ModuleInfo) -> ModView {
    (m.id@, m.document_count as nat, m.word_count as nat, strs(m.children@))
}

/// The texts of (path, content) pairs.
pub open spec fn docs_view(v: Seq<(String, String)>) -> Seq<(Seq<char>, Seq<char>)> {
    v.map_values(|p: (String, String)| (p.0@, p.1@))
}

/// Sum of the word counts of the documents.
pub open spec fn all_words(docs: Seq<(Seq<char>, Seq<char>)>) -> nat
    decreases docs.len(),
{
    if docs.len() == 0 { 0 } else { all_words(docs.drop_last()) + spec_word_count(docs.last().1, false) }
}

proof fn lemma_modules_bounds(filter: Option<Seq<char>>, docs: Seq<(Seq<char>, Seq<char>)>)
    ensures
        forall|i: int| 0 <= i < spec_modules(filter, docs).len() ==>
            (#[trigger] spec_modules(filter, docs)[i]).1 <= docs.len()
            && spec_modules(filter, docs)[i].2 <= all_words(docs)
            && spec_modules(filter, docs)[i].3.len() <= docs.len(),
        spec_modules(filter, docs).len() <= docs.len(),
        forall|i: int| 0 <= i < spec_modules(filter, docs).len() ==>
            index_of_module(spec_modules(filter, docs), (#[trigger] spec_modules(filter, docs)[i]).0) == Some(i),
    decreases docs.len(),
{
    if docs.len() > 0 {
        lemma_modules_bounds(filter, docs.drop_last());
        let p = spec_modules(filter, docs.drop_last());
        let m = module_of(docs.last().1);
        lemma_index_of_module(p, m);
        match index_of_module(p, m) {
            Some(k) => {
                let q = spec_modules(filter, docs);
                assert forall|i: int| 0 <= i < q.len() implies index_of_module(q, (#[trigger] q[i]).0) == Some(i) by {
                    lemma_index_update(p, k, q[k], i);
                }
            },
            None => {
                let q = spec_modules(filter, docs);
                assert(q.drop_last() =~= p);
                assert forall|i: int| 0 <= i < q.len() implies index_of_module(q, (#[trigger] q[i]).0) == Some(i) by {
                    if i < p.len() {
                        assert(q[i] == p[i]);
                    }
                }
            },
        }
    }
}

proof fn lemma_index_of_module(p: Seq<ModView>, m: Seq<char>)
    ensures
        match index_of_module(p, m) {
            Some(i) => 0 <= i < p.len() && p[i].0 == m,
            None => forall|i: int| 0 <= i < p.len() ==> (#[trigger] p[i]).0 != m,
        },
    decreases p.len(),
{
    if p.len() > 0 {
        lemma_index_of_module(p.drop_last(), m);
        if index_of_module(p, m) is None {
            assert forall|i: int| 0 <= i < p.len() implies (#[trigger] p[i]).0 != m by {
                if i < p.len() - 1 {
                    assert(p.drop_last()[i] == p[i]);
                }
            }
        }
    }
}

proof fn lemma_index_update(p: Seq<ModView>, k: int, e: ModView, i: int)
    requires
        0 <= k < p.len(),
        0 <= i < p.len(),
        e.0 == p[k].0,
        forall|j: int| 0 <= j < p.len() ==> index_of_module(p, (#[trigger] p[j]).0) == Some(j),
    ensures
        index_of_module(p.update(k, e), p.update(k, e)[i].0) == Some(i),
    decreases p.len(),
{
    let q = p.update(k, e);
    assert(index_of_module(p, p[i].0) == Some(i));
    lemma_index_same_names(p, q, q[i].0);
}

proof fn lemma_index_same_names(p: Seq<ModView>, q: Seq<ModView>, m: Seq<char>)
    requires
        p.len() == q.len(),
        forall|j: int| 0 <= j < p.len() ==> (#[trigger] p[j]).0 == q[j].0,
    ensures
        index_of_module(p, m) == index_of_module(q, m),
    decreases p.len(),
{
    if p.len() > 0 {
        lemma_index_same_names(p.drop_last(), q.drop_last(), m);
    }
}

/// Index of the module named `m`.
fn find_module(ms: &Vec<ModuleInfo>, m: &String) -> (r: Option<usize>)
    ensures
        match r {
            Some(i) => index_of_module(ms@.map_values(|x: ModuleInfo| mod_view(x)), m@) == Some(i as int),
            None => index_of_module(ms@.map_values(|x: ModuleInfo| mod_view(x)), m@) is None,
        },
{
    let ghost mv = ms@.map_values(|x: ModuleInfo| mod_view(x));
    let mut i: usize = 0;
    assert(mv.subrange(0, 0) =~= Seq::<ModView>::empty());
    while i < ms.len()
        invariant
            i <= ms@.len(),
            mv == ms@.map_values(|x: ModuleInfo| mod_view(x)),
            index_of_module(mv.subrange(0, i as int), m@) is None,
        decreases ms@.len() - i,
    {
        let ghost sub = mv.subrange(0, i + 1);
        assert(sub.drop_last() =~= mv.subrange(0, i as int));
        if str_eq(ms[i].id.as_str(), m.as_str()) {
            proof {
                lemma_index_prefix(mv, m@, i + 1);
            }
            return Some(i);
        }
        i = i + 1;
    }
    assert(mv.subrange(0, ms@.len() as int) =~= mv);
    None
}

proof fn lemma_index_prefix(p: Seq<ModView>, m: Seq<char>, n: int)
    requires
        0 < n <= p.len(),
        index_of_module(p.subrange(0, n), m) is Some,
    ensures
        index_of_module(p, m) == index_of_module(p.subrange(0, n), m),
    decreases p.len() - n,
{
    if n < p.len() {
        assert(p.drop_last().subrange(0, n) =~= p.subrange(0, n));
        lemma_index_prefix(p.drop_last(), m, n);
    } else {
        assert(p.subrange(0, n) =~= p);
    }
}

impl ModuleCommand {
    /// The modules of the documents, given as (path, content): each with
    /// its documents, words, the document paths when it is the module asked
    /// for, and its health from the average words; with a module asked for,
    /// only the modules whose name contains it.
    pub fn run(&self, docs: &Vec<(String, String)>) -> (r: ModuleResult)
        requires
            all_words(docs_view(docs@)) <= usize::MAX,
        ensures
            ({
                let ms = spec_modules(match self.module_id { Some(f) => Some(f@), None => None }, docs_view(docs@));
                let kept = ms.filter(|m: ModView| match self.module_id { Some(f) => spec_contains(m.0, f@), None => true });
                &&& r.modules@.len() == kept.len()
                &&& forall|i: int| 0 <= i < kept.len() ==> {
                    let x = #[trigger] r.modules@[i];
                    &&& mod_view(x) == kept[i]
                    &&& x.name@ == kept[i].0
                    &&& x.health_score == health_for(spec_avg(kept[i].2, kept[i].1))
                }
            }),
    {
        let ghost dv = docs_view(docs@);
        let ghost filter = match &self.module_id { Some(f) => Some(f@), None => None::<Seq<char>> };
        let mut ms: Vec<ModuleInfo> = Vec::new();
        let mut i: usize = 0;
        while i < docs.len()
            invariant
                i <= docs@.len(),
                dv == docs_view(docs@),
                all_words(dv) <= usize::MAX,
                filter == match self.module_id { Some(f) => Some(f@), None => None::<Seq<char>> },
                ms@.map_values(|x: ModuleInfo| mod_view(x)) == spec_modules(filter, dv.subrange(0, i as int)),
                forall|k: int| 0 <= k < ms@.len() ==> (#[trigger] ms@[k]).name@ == ms@[k].id@,
            decreases docs@.len() - i,
        {
            let ghost sub = dv.subrange(0, i + 1);
            proof {
                assert(sub.drop_last() =~= dv.subrange(0, i as int));
                lemma_modules_bounds(filter, dv.subrange(0, i as int));
                lemma_all_words_prefix(dv, i as int);
                lemma_index_of_module(spec_modules(filter, dv.subrange(0, i as int)), module_of(dv[i as int].1));
            }
            let path = &docs[i].0;
            let content = &docs[i].1;
            let m = match group(RE_MODULE, content.as_str(), 1) {
                Some(x) => string_of(&trim(&chars_of(x.as_str()))),
                None => owned("sin_modulo"),
            };
            let w = word_count(&chars_of(content.as_str()), false);
            let keep = match &self.module_id { Some(f) => str_eq(m.as_str(), f.as_str()), None => false };
            let ghost before = ms@.map_values(|x: ModuleInfo| mod_view(x));
            match find_module(&ms, &m) {
                Some(k) => {
                    let old_m = &ms[k];
                    let mut children = crate::text::clone_strings(&old_m.children);
                    let ghost c0 = strs(children@);
                    if keep {
                        children.push(path.clone());
                        assert(strs(children@) =~= c0.push(path@));
                    }
                    proof {
                        assert(before[k as int] == mod_view(ms@[k as int]));
                        assert(before[k as int].0 == m@);
                    }
                    let e = ModuleInfo {
                        id: old_m.id.clone(),
                        name: old_m.name.clone(),
                        document_count: old_m.document_count + 1,
                        word_count: old_m.word_count + w,
                        health_score: old_m.health_score,
                        children,
                    };
                    ms.set(k, e);
                    proof {
                        assert(mod_view(ms@[k as int]) == (m@, before[k as int].1 + 1, before[k as int].2 + spec_word_count(content@, false),
                             if keep { before[k as int].3.push(path@) } else { before[k as int].3 }));
                        assert(ms@.map_values(|x: ModuleInfo| mod_view(x)) =~= before.update(k as int,
                            (m@, before[k as int].1 + 1, before[k as int].2 + spec_word_count(content@, false),
                             if keep { before[k as int].3.push(path@) } else { before[k as int].3 })));
                    }
                },
                None => {
                    let mut children: Vec<String> = Vec::new();
                    if keep {
                        children.push(path.clone());
                        assert(strs(children@) =~= seq![path@]);
                    } else {
                        assert(strs(children@) =~= Seq::<Seq<char>>::empty());
                    }
                    let mut e = ModuleInfo::new(m.as_str(), m.as_str());
                    e.document_count = 1;
                    e.word_count = w;
                    e.children = children;
                    ms.push(e);
                    proof {
                        assert(ms@.map_values(|x: ModuleInfo| mod_view(x)) =~= before.push(
                            (m@, 1, spec_word_count(content@, false), if keep { seq![path@] } else { Seq::empty() })));
                    }
                },
            }
            i = i + 1;
        }
        assert(dv.subrange(0, docs@.len() as int) =~= dv);
        let ghost all = ms@.map_values(|x: ModuleInfo| mod_view(x));
        let mut result = ModuleResult::new();
        let mut j: usize = 0;
        while j < ms.len()
            invariant
                j <= ms@.len(),
                all == ms@.map_values(|x: ModuleInfo| mod_view(x)),
                forall|k: int| 0 <= k < ms@.len() ==> (#[trigger] ms@[k]).name@ == ms@[k].id@,
                ({
                    let kept = all.subrange(0, j as int).filter(|m: ModView| match self.module_id { Some(f) => spec_contains(m.0, f@), None => true });
                    &&& result.modules@.len() == kept.len()
                    &&& forall|q: int| 0 <= q < kept.len() ==> {
                        let x = #[trigger] result.modules@[q];
                        &&& mod_view(x) == kept[q]
                        &&& x.name@ == kept[q].0
                        &&& x.health_score == health_for(spec_avg(kept[q].2, kept[q].1))
                    }
                }),
            decreases ms@.len() - j,
        {
            proof {
                let sub = all.subrange(0, j + 1);
                assert(sub.drop_last() =~= all.subrange(0, j as int));
                reveal_with_fuel(Seq::<_>::filter, 1);
                assert(all[j as int] == mod_view(ms@[j as int]));
            }
            let selected = match &self.module_id {
                Some(f) => find(&chars_of(ms[j].id.as_str()), &chars_of(f.as_str())).is_some(),
                None => true,
            };
            if selected {
                let src = &ms[j];
                let avg = src.avg_words();
                let health: u8 = if avg <= 50 { 40 } else if avg <= 200 { 70 } else if avg <= 500 { 90 } else { 100 };
                let e = ModuleInfo {
                    id: src.id.clone(),
                    name: src.name.clone(),
                    document_count: src.document_count,
                    word_count: src.word_count,
                    health_score: health,
                    children: crate::text::clone_strings(&src.children),
                };
                result.add_module(e);
            }
            j = j + 1;
        }
        assert(all.subrange(0, ms@.len() as int) =~= all);
        result
    }
}

proof fn lemma_all_words_prefix(docs: Seq<(Seq<char>, Seq<char>)>, i: int)
    requires
        0 <= i < docs.len(),
    ensures
        all_words(docs.subrange(0, i + 1)) <= all_words(docs),
        all_words(docs.subrange(0, i)) + spec_word_count(docs[i].1, false) <= all_words(docs),
    decreases docs.len(),
{
    assert(docs.subrange(0, i + 1).drop_last() =~= docs.subrange(0, i));
    if i + 1 < docs.len() {
        lemma_all_words_prefix(docs.drop_last(), i);
        assert(docs.drop_last().subrange(0, i + 1) =~= docs.subrange(0, i + 1));
        assert(docs.drop_last().subrange(0, i) =~= docs.subrange(0, i));
    } else {
        assert(docs.subrange(0, i + 1) =~= docs);
    }
}

/// The README of a new module, dated `today`.
pub open spec fn module_readme(name: Seq<char>, today: Seq<char>) -> Seq<char> {
    "---\ntitle: \"Módulo "@ + name + "\"\ndocument_id: \""@ + name + ".0\"\ntype: \"module_root\"\nmodule: \""@ + name
        + "\"\nstatus: \"draft\"\ncreated: \""@ + today + "\"\nlast_updated: \""@ + today + "\"\n---\n\n# "@ + name
        + "\n\n## Descripción\n\n[Descripción del módulo]\n\n## Documentos\n\n| ID | Título | Estado |\n|----|--------|--------|\n| - | - | - |\n"@
}

/// The `module:` field split in three groups: key with opening quote,
/// value, closing quote.
pub const MODULE_FIELD_PARTS: &'static str = r#"(module:\s*["']?)([^"'\n]+)(["']?)"#;

/// What replaces match `k` of the `module:` field when a document moves to
/// `dest`: the first match gets the new value, the others stay.
pub open spec fn moved_rep(c: Seq<Option<Seq<char>>>, k: int, dest: Seq<char>) -> Seq<char> {
    if k == 0 { group_or_empty(c, 1) + dest + group_or_empty(c, 3) } else { group_or_empty(c, 0) }
}

/// A document's text with its (first) `module:` value set to `dest`.
pub open spec fn spec_move_content(content: Seq<char>, dest: Seq<char>) -> Seq<char> {
    let caps = spec_captures_all(MODULE_FIELD_PARTS@, content);
    weave(spec_split_pieces(MODULE_FIELD_PARTS@, content), Seq::new(caps.len(), |k: int| moved_rep(caps[k], k, dest)))
}

/// Whether a document's `document_id`, trimmed, is `id`.
pub open spec fn doc_has_id(content: Seq<char>, id: Seq<char>) -> bool {
    match spec_group(RE_DOCUMENT_ID@, content, 1) {
        Some(v) => spec_trim(v) == id,
        None => false,
    }
}

/// The new text of a document moved to `dest`.
fn move_content(content: &str, dest: &str) -> (r: String)
    ensures
        r@ == spec_move_content(content@, dest@),
{
    let pieces = split_pieces(MODULE_FIELD_PARTS, content);
    let caps = captures_all(MODULE_FIELD_PARTS, content);
    let ghost cv = spec_captures_all(MODULE_FIELD_PARTS@, content@);
    let ghost want = Seq::new(cv.len(), |k: int| moved_rep(cv[k], k, dest@));
    let mut reps: Vec<String> = Vec::new();
    let mut k: usize = 0;
    while k < caps.len()
        invariant
            k <= caps@.len(),
            caps@.map_values(|c: Vec<Option<String>>| opt_strs(c@)) == cv,
            want == Seq::new(cv.len(), |k: int| moved_rep(cv[k], k, dest@)),
            strs(reps@) == want.subrange(0, k as int),
        decreases caps@.len() - k,
    {
        assert(opt_strs(caps@[k as int]@) == cv[k as int]);
        let rep = if k == 0 {
            let mut t = match cap_at(&caps[k], 1) { Some(a) => a, None => String::new() };
            push_str(&mut t, dest);
            match cap_at(&caps[k], 3) {
                Some(b) => push_str(&mut t, b.as_str()),
                None => {},
            }
            t
        } else {
            match cap_at(&caps[k], 0) { Some(w) => w, None => String::new() }
        };
        let ghost r0 = strs(reps@);
        let ghost rv = rep@;
        reps.push(rep);
        assert(strs(reps@) =~= r0.push(rv));
        assert(want.subrange(0, k + 1) =~= want.subrange(0, k as int).push(want[k as int]));
        k = k + 1;
    }
    assert(want.subrange(0, caps@.len() as int) =~= want);
    weave_exec(&pieces, &reps)
}

impl ModuleCommand {
    /// The README of a new module dated `today`.
    pub fn module_readme(module_name: &str, today: &str) -> (r: String)
        ensures
            r@ == module_readme(module_name@, today@),
    {
        let mut s = owned("---\ntitle: \"Módulo ");
        push_str(&mut s, module_name);
        push_str(&mut s, "\"\ndocument_id: \"");
        push_str(&mut s, module_name);
        push_str(&mut s, ".0\"\ntype: \"module_root\"\nmodule: \"");
        push_str(&mut s, module_name);
        push_str(&mut s, "\"\nstatus: \"draft\"\ncreated: \"");
        push_str(&mut s, today);
        push_str(&mut s, "\"\nlast_updated: \"");
        push_str(&mut s, today);
        push_str(&mut s, "\"\n---\n\n# ");
        push_str(&mut s, module_name);
        push_str(&mut s, "\n\n## Descripción\n\n[Descripción del módulo]\n\n## Documentos\n\n| ID | Título | Estado |\n|----|--------|--------|\n| - | - | - |\n");
        s
    }

    /// A new module: its directory below the data directory, its README
    /// (dated today, in UTC) and the result listing it with one document.
    pub fn create_module(&self, module_name: &str) -> (r: (String, String, ModuleResult))
        ensures
            r.0@ == "docs/modulos/"@ + module_name@,
            exists|today: Seq<char>| crate::clock::has_shape(today, crate::clock::date_shape()) && r.1@ == module_readme(module_name@, today),
            r.2.modules@.len() == 1,
            r.2.modules@[0].id@ == module_name@,
            r.2.modules@[0].name@ == module_name@,
            r.2.modules@[0].document_count == 1,
            r.2.modules@[0].word_count == 0,
            r.2.modules@[0].health_score == 100,
            r.2.modules@[0].children@.len() == 0,
    {
        let today = crate::clock::utc_today();
        let readme = ModuleCommand::module_readme(module_name, today.as_str());
        let mut dir = owned("docs/modulos/");
        push_str(&mut dir, module_name);
        let mut result = ModuleResult::new();
        let mut info = ModuleInfo::new(module_name, module_name);
        info.document_count = 1;
        result.add_module(info);
        (dir, readme, result)
    }

    /// Moves a document to module `dest_module`: among `docs` (path, text),
    /// the first whose `document_id` is `doc_id` gets its `module:` value
    /// replaced; gives its index, its new text and the result listing the
    /// destination module. `None` when no document has that id.
    pub fn move_document(&self, docs: &Vec<(String, String)>, doc_id: &str, dest_module: &str) -> (r: Option<(usize, String, ModuleResult)>)
        ensures
            match r {
                None => forall|j: int| 0 <= j < docs@.len() ==> !doc_has_id((#[trigger] docs@[j]).1@, doc_id@),
                Some(x) => x.0 < docs@.len()
                    && doc_has_id(docs@[x.0 as int].1@, doc_id@)
                    && (forall|j: int| 0 <= j < x.0 ==> !doc_has_id((#[trigger] docs@[j]).1@, doc_id@))
                    && x.1@ == spec_move_content(docs@[x.0 as int].1@, dest_module@)
                    && x.2.modules@.len() == 1
                    && x.2.modules@[0].id@ == dest_module@
                    && x.2.modules@[0].name@ == dest_module@
                    && x.2.modules@[0].document_count == 0
                    && x.2.modules@[0].word_count == 0
                    && x.2.modules@[0].health_score == 100
                    && x.2.modules@[0].children@.len() == 0,
            },
    {
        let mut i: usize = 0;
        while i < docs.len()
            invariant
                i <= docs@.len(),
                forall|j: int| 0 <= j < i ==> !doc_has_id((#[trigger] docs@[j]).1@, doc_id@),
            decreases docs@.len() - i,
        {
            let found = match group(RE_DOCUMENT_ID, docs[i].1.as_str(), 1) {
                Some(v) => str_eq(string_of(&trim(&chars_of(v.as_str()))).as_str(), doc_id),
                None => false,
            };
            if found {
                let c = move_content(docs[i].1.as_str(), dest_module);
                let mut result = ModuleResult::new();
                result.add_module(ModuleInfo::new(dest_module, dest_module));
                return Some((i, c, result));
            }
            i = i + 1;
        }
        None
    }
}

} // verus!
