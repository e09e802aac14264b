//! Traceability of a document: ancestors, descendants, links and backlinks.

use vstd::prelude::*;
use crate::commands::links::{link_target_name, target_name};
use crate::patterns::{
    cap_at, cap_group, captures_all, group, opt_strs, spec_captures_all, spec_group, RE_PARENT_ID,
    RE_WIKI_LINK,
};
use crate::text::{contains_str, owned, str_eq, strs};

verus! {

/// Kind of a reference.
#[derive(Debug, Clone, Copy, PartialEq, Eq, Structural)]
pub enum TraceType {
    Link,
    Parent,
    Child,
    Embed,
    Backlink,
}

/// A reference between two documents, found at some depth.
#[derive(Debug, Clone)]
pub struct TraceReference {
    pub source: String,
    pub target: String,
    pub ref_type: TraceType,
    pub depth: usize,
}

/// Outcome of a trace.
#[derive(Debug, Clone)]
pub struct TraceResult {
    pub document_id: String,
    pub references: Vec<TraceReference>,
    pub depth_reached: usize,
}

/// A reference as (source, target, kind, depth).
pub type RefView = (Seq<char>, Seq<char>, TraceType, nat);

/// The views of references.
pub open spec fn refs_view(v: Seq<TraceReference>) -> Seq<RefView> {
    v.map_values(|r: TraceReference| (r.source@, r.target@, r.ref_type, r.depth as nat))
}

/// The greatest depth among the references (0 without references).
pub open spec fn max_depth(v: Seq<TraceReference>) -> nat
    decreases v.len(),
{
    if v.len() == 0 {
        0
    } else {
        let p = max_depth(v.drop_last());
        if v.last().depth > p { v.last().depth as nat } else { p }
    }
}

/// The documents named, each once: the traced one, then sources and
/// targets in order.
pub open spec fn unique_docs(id: Seq<char>, v: Seq<TraceReference>) -> Seq<Seq<char>>
    decreases v.len(),
{
    if v.len() == 0 {
        seq![id]
    } else {
        let p = unique_docs(id, v.drop_last());
        let q = if p.contains(v.last().source@) { p } else { p.push(v.last().source@) };
        if q.contains(v.last().target@) { q } else { q.push(v.last().target@) }
    }
}

/// The references behind references.
pub open spec fn ref_derefs(v: Seq<&TraceReference>) -> Seq<TraceReference> {
    v.map_values(|r: &TraceReference| *r)
}

impl TraceResult {
    /// The depth reached agrees with the references.
    pub open spec fn wf(&self) -> bool {
        self.depth_reached == max_depth(self.references@)
    }

    pub fn new(doc_id: &str) -> (r: TraceResult)
        ensures
            r.wf(),
            r.document_id@ == doc_id@,
            r.references@.len() == 0,
            r.depth_reached == 0,
    {
        TraceResult { document_id: owned(doc_id), references: Vec::new(), depth_reached: 0 }
    }

    /// Records a reference; the depth reached grows to its depth.
    pub fn add_reference(&mut self, reference: TraceReference)
        ensures
            final(self).document_id == old(self).document_id,
            final(self).references@ == old(self).references@.push(reference),
            final(self).depth_reached == (if reference.depth > old(self).depth_reached { reference.depth } else { old(self).depth_reached }),
            old(self).wf() ==> final(self).wf(),
    {
        if reference.depth > self.depth_reached {
            self.depth_reached = reference.depth;
        }
        let ghost before = self.references@;
        self.references.push(reference);
        assert(self.references@.drop_last() =~= before);
    }

    /// The documents named by the trace, each once.
    pub fn unique_documents(&self) -> (r: Vec<String>)
        ensures
            strs(r@) == unique_docs(self.document_id@, self.references@),
    {
        let mut r: Vec<String> = Vec::new();
        r.push(self.document_id.clone());
        assert(strs(r@) =~= seq![self.document_id@]);
        let mut i: usize = 0;
        while i < self.references.len()
            invariant
                i <= self.references@.len(),
                strs(r@) == unique_docs(self.document_id@, self.references@.subrange(0, i as int)),
            decreases self.references@.len() - i,
        {
            let ghost sub = self.references@.subrange(0, i + 1);
            assert(sub.drop_last() =~= self.references@.subrange(0, i as int));
            let x = &self.references[i];
            if !contains_str(&r, x.source.as_str()) {
                let ghost r0 = strs(r@);
                r.push(x.source.clone());
                assert(strs(r@) =~= r0.push(x.source@));
            }
            if !contains_str(&r, x.target.as_str()) {
                let ghost r0 = strs(r@);
                r.push(x.target.clone());
                assert(strs(r@) =~= r0.push(x.target@));
            }
            i = i + 1;
        }
        assert(self.references@.subrange(0, self.references@.len() as int) =~= self.references@);
        r
    }

    /// The references of one kind, in order.
    pub fn by_type(&self, ref_type: TraceType) -> (r: Vec<&TraceReference>)
        ensures
            ref_derefs(r@) == self.references@.filter(|x: TraceReference| x.ref_type == ref_type),
    {
        let mut r: Vec<&TraceReference> = Vec::new();
        let mut i: usize = 0;
        while i < self.references.len()
            invariant
                i <= self.references@.len(),
                ref_derefs(r@) == self.references@.subrange(0, i as int).filter(|x: TraceReference| x.ref_type == ref_type),
            decreases self.references@.len() - i,
        {
            proof {
                let sub = self.references@.subrange(0, i + 1);
                assert(sub.drop_last() =~= self.references@.subrange(0, i as int));
                reveal_with_fuel(Seq::<_>::filter, 1);
            }
            if self.references[i].ref_type == ref_type {
                let ghost r0 = ref_derefs(r@);
                r.push(&self.references[i]);
                assert(ref_derefs(r@) =~= r0.push(self.references@[i as int]));
            }
            i = i + 1;
        }
        assert(self.references@.subrange(0, self.references@.len() as int) =~= self.references@);
        r
    }
}

/// Options of the trace command.
#[derive(Debug, Clone)]
pub struct TraceCommand {
    pub document_id: String,
    pub path: Option<String>,
    pub depth: usize,
    pub backlinks: bool,
}

/// The documents as (stem, content).
pub open spec fn trace_files(v: Seq<(String, String)>) -> Seq<(Seq<char>, Seq<char>)> {
    v.map_values(|p: (String, String)| (p.0@, p.1@))
}

/// The parent recorded for `id`: the `parent_id` of the last document with
/// that stem which has one.
pub open spec fn parent_of(fs: Seq<(Seq<char>, Seq<char>)>, id: Seq<char>) -> Option<Seq<char>>
    decreases fs.len(),
{
    if fs.len() == 0 {
        None
    } else if fs.last().0 == id && spec_group(RE_PARENT_ID@, fs.last().1, 1) is Some {
        spec_group(RE_PARENT_ID@, fs.last().1, 1)
    } else {
        parent_of(fs.drop_last(), id)
    }
}

/// The documents whose parent is `id`, in order.
pub open spec fn children_of(fs: Seq<(Seq<char>, Seq<char>)>, id: Seq<char>) -> Seq<Seq<char>>
    decreases fs.len(),
{
    if fs.len() == 0 {
        Seq::empty()
    } else {
        let p = children_of(fs.drop_last(), id);
        if spec_group(RE_PARENT_ID@, fs.last().1, 1) == Some(id) { p.push(fs.last().0) } else { p }
    }
}

/// The link targets of one document: wiki links to other documents, by
/// the name they point to.
pub open spec fn doc_links(stem: Seq<char>, caps: Seq<Seq<Option<Seq<char>>>>) -> Seq<Seq<char>>
    decreases caps.len(),
{
    if caps.len() == 0 {
        Seq::empty()
    } else {
        let p = doc_links(stem, caps.drop_last());
        match cap_group(caps.last(), 1) {
            Some(t) => if target_name(t) != stem { p.push(target_name(t)) } else { p },
            None => p,
        }
    }
}

/// The links out of the documents with stem `id`, in order.
pub open spec fn links_from(fs: Seq<(Seq<char>, Seq<char>)>, id: Seq<char>) -> Seq<Seq<char>>
    decreases fs.len(),
{
    if fs.len() == 0 {
        Seq::empty()
    } else {
        let p = links_from(fs.drop_last(), id);
        if fs.last().0 == id {
            p + doc_links(fs.last().0, spec_captures_all(RE_WIKI_LINK@, fs.last().1))
        } else {
            p
        }
    }
}

/// The documents linking to `id`, once per link, in order.
pub open spec fn links_to(fs: Seq<(Seq<char>, Seq<char>)>, id: Seq<char>) -> Seq<Seq<char>>
    decreases fs.len(),
{
    if fs.len() == 0 {
        Seq::empty()
    } else {
        let p = links_to(fs.drop_last(), id);
        let ts = doc_links(fs.last().0, spec_captures_all(RE_WIKI_LINK@, fs.last().1));
        p + ts.filter(|t: Seq<char>| t == id).map_values(|t: Seq<char>| fs.last().0)
    }
}

/// The parent references from `id` up, from depth `d` to `max`.
pub open spec fn ancestor_refs(fs: Seq<(Seq<char>, Seq<char>)>, id: Seq<char>, d: nat, max: nat) -> Seq<RefView>
    decreases max + 1 - d,
{
    if d > max {
        Seq::empty()
    } else {
        match parent_of(fs, id) {
            Some(p) => seq![(id, p, TraceType::Parent, d)] + ancestor_refs(fs, p, d + 1, max),
            None => Seq::empty(),
        }
    }
}

/// The child references below `id`, depth first, from depth `d` to `max`.
pub open spec fn descendant_refs(fs: Seq<(Seq<char>, Seq<char>)>, id: Seq<char>, d: nat, max: nat) -> Seq<RefView>
    decreases max + 1 - d, 1nat,
{
    if d > max {
        Seq::empty()
    } else {
        child_list_refs(fs, id, children_of(fs, id), d, max)
    }
}

/// The child references for the children `cs` of `id`, each followed by
/// the references below it.
pub open spec fn child_list_refs(fs: Seq<(Seq<char>, Seq<char>)>, id: Seq<char>, cs: Seq<Seq<char>>, d: nat, max: nat) -> Seq<RefView>
    decreases max + 1 - d, 0nat, cs.len(),
{
    if d > max || cs.len() == 0 {
        Seq::empty()
    } else {
        seq![(id, cs[0], TraceType::Child, d)] + descendant_refs(fs, cs[0], d + 1, max)
            + child_list_refs(fs, id, cs.drop_first(), d, max)
    }
}

/// The parent recorded for `id`.
fn parent_of_exec(files: &Vec<(String, String)>, id: &String) -> (r: Option<String>)
    ensures
        match r {
            Some(p) => parent_of(trace_files(files@), id@) == Some(p@),
            None => parent_of(trace_files(files@), id@) is None,
        },
{
    let ghost fv = trace_files(files@);
    let mut i: usize = files.len();
    assert(fv.subrange(0, files@.len() as int) =~= fv);
    while i > 0
        invariant
            i <= files@.len(),
            fv == trace_files(files@),
            parent_of(fv, id@) == parent_of(fv.subrange(0, i as int), id@),
        decreases i,
    {
        let ghost sub = fv.subrange(0, i as int);
        assert(sub.drop_last() =~= fv.subrange(0, i - 1));
        if str_eq(files[i - 1].0.as_str(), id.as_str()) {
            match group(RE_PARENT_ID, files[i - 1].1.as_str(), 1) {
                Some(p) => {
                    return Some(p);
                },
                None => {},
            }
        }
        i = i - 1;
    }
    None
}

/// The documents whose parent is `id`.
fn children_of_exec(files: &Vec<(String, String)>, id: &String) -> (r: Vec<String>)
    ensures
        strs(r@) == children_of(trace_files(files@), id@),
{
    let ghost fv = trace_files(files@);
    let mut r: Vec<String> = Vec::new();
    let mut i: usize = 0;
    while i < files.len()
        invariant
            i <= files@.len(),
            fv == trace_files(files@),
            strs(r@) == children_of(fv.subrange(0, i as int), id@),
        decreases files@.len() - i,
    {
        let ghost sub = fv.subrange(0, i + 1);
        assert(sub.drop_last() =~= fv.subrange(0, i as int));
        match group(RE_PARENT_ID, files[i].1.as_str(), 1) {
            Some(p) => {
                if str_eq(p.as_str(), id.as_str()) {
                    let ghost r0 = strs(r@);
                    r.push(files[i].0.clone());
                    assert(strs(r@) =~= r0.push(fv[i as int].0));
                }
            },
            None => {},
        }
        i = i + 1;
    }
    assert(fv.subrange(0, files@.len() as int) =~= fv);
    r
}

/// The link targets of one document.
fn doc_links_exec(stem: &String, content: &String) -> (r: Vec<String>)
    ensures
        strs(r@) == doc_links(stem@, spec_captures_all(RE_WIKI_LINK@, content@)),
{
    let caps = captures_all(RE_WIKI_LINK, content.as_str());
    let ghost cv = caps@.map_values(|c: Vec<Option<String>>| opt_strs(c@));
    let mut r: Vec<String> = Vec::new();
    let mut i: usize = 0;
    while i < caps.len()
        invariant
            i <= caps@.len(),
            cv == caps@.map_values(|c: Vec<Option<String>>| opt_strs(c@)),
            strs(r@) == doc_links(stem@, cv.subrange(0, i as int)),
        decreases caps@.len() - i,
    {
        let ghost sub = cv.subrange(0, i + 1);
        assert(sub.drop_last() =~= cv.subrange(0, i as int));
        assert(sub.last() == opt_strs(caps@[i as int]@));
        match cap_at(&caps[i], 1) {
            Some(t) => {
                let n = link_target_name(t.as_str());
                if !str_eq(n.as_str(), stem.as_str()) {
                    let ghost r0 = strs(r@);
                    r.push(n);
                    assert(strs(r@) =~= r0.push(target_name(t@)));
                }
            },
            None => {},
        }
        i = i + 1;
    }
    assert(cv.subrange(0, caps@.len() as int) =~= cv);
    r
}

/// Adds a reference (keeping the depth reached).
fn push_ref(result: &mut TraceResult, source: String, target: String, t: TraceType, depth: usize)
    requires
        old(result).wf(),
    ensures
        final(result).wf(),
        final(result).document_id == old(result).document_id,
        refs_view(final(result).references@) == refs_view(old(result).references@).push((source@, target@, t, depth as nat)),
{
    let ghost r0 = refs_view(result.references@);
    result.add_reference(TraceReference { source, target, ref_type: t, depth });
    assert(refs_view(result.references@) =~= r0.push((source@, target@, t, depth as nat)));
}

impl TraceCommand {
    /// The parent references from `id` up.
    fn trace_ancestors(&self, files: &Vec<(String, String)>, id: &String, depth: usize, result: &mut TraceResult)
        requires
            old(result).wf(),
            self.depth < usize::MAX,
            depth >= 1,
        ensures
            final(result).wf(),
            final(result).document_id == old(result).document_id,
            refs_view(final(result).references@) == refs_view(old(result).references@)
                + ancestor_refs(trace_files(files@), id@, depth as nat, self.depth as nat),
        decreases self.depth + 1 - depth,
    {
        if depth > self.depth {
            assert(refs_view(result.references@) =~= refs_view(result.references@) + Seq::<RefView>::empty());
            return;
        }
        match parent_of_exec(files, id) {
            Some(p) => {
                let ghost r0 = refs_view(result.references@);
                push_ref(result, id.clone(), p.clone(), TraceType::Parent, depth);
                self.trace_ancestors(files, &p, depth + 1, result);
                assert(refs_view(result.references@) =~= r0
                    + ancestor_refs(trace_files(files@), id@, depth as nat, self.depth as nat));
            },
            None => {
                assert(refs_view(result.references@) =~= refs_view(result.references@) + Seq::<RefView>::empty());
            },
        }
    }

    /// The child references below `id`, depth first.
    fn trace_descendants(&self, files: &Vec<(String, String)>, id: &String, depth: usize, result: &mut TraceResult)
        requires
            old(result).wf(),
            self.depth < usize::MAX,
            depth >= 1,
        ensures
            final(result).wf(),
            final(result).document_id == old(result).document_id,
            refs_view(final(result).references@) == refs_view(old(result).references@)
                + descendant_refs(trace_files(files@), id@, depth as nat, self.depth as nat),
        decreases self.depth + 1 - depth, 1nat, 0nat,
    {
        if depth > self.depth {
            assert(refs_view(result.references@) =~= refs_view(result.references@) + Seq::<RefView>::empty());
            return;
        }
        let children = children_of_exec(files, id);
        let ghost cs = strs(children@);
        let ghost r0 = refs_view(result.references@);
        let ghost doc0 = result.document_id;
        let mut k: usize = 0;
        assert(cs.skip(0) =~= cs);
        while k < children.len()
            invariant
                k <= children@.len(),
                cs == strs(children@),
                cs == children_of(trace_files(files@), id@),
                result.wf(),
                result.document_id == doc0,
                self.depth < usize::MAX,
                1 <= depth <= self.depth,
                refs_view(result.references@) + child_list_refs(trace_files(files@), id@, cs.skip(k as int), depth as nat, self.depth as nat)
                    == r0 + child_list_refs(trace_files(files@), id@, cs, depth as nat, self.depth as nat),
            decreases children@.len() - k,
        {
            let ghost rest = cs.skip(k as int);
            assert(rest[0] == children@[k as int]@);
            assert(rest.drop_first() =~= cs.skip(k + 1));
            let ghost before = refs_view(result.references@);
            push_ref(result, id.clone(), children[k].clone(), TraceType::Child, depth);
            self.trace_descendants(files, &children[k], depth + 1, result);
            assert(refs_view(result.references@) =~= before + seq![(id@, rest[0], TraceType::Child, depth as nat)]
                + descendant_refs(trace_files(files@), rest[0], depth as nat + 1, self.depth as nat));
            k = k + 1;
        }
        assert(cs.skip(k as int) =~= Seq::<Seq<char>>::empty());
    }
}

/// The links out of the documents with stem `id`.
fn links_from_exec(files: &Vec<(String, String)>, id: &String) -> (r: Vec<String>)
    ensures
        strs(r@) == links_from(trace_files(files@), id@),
{
    let ghost fv = trace_files(files@);
    let mut r: Vec<String> = Vec::new();
    let mut i: usize = 0;
    while i < files.len()
        invariant
            i <= files@.len(),
            fv == trace_files(files@),
            strs(r@) == links_from(fv.subrange(0, i as int), id@),
        decreases files@.len() - i,
    {
        let ghost sub = fv.subrange(0, i + 1);
        assert(sub.drop_last() =~= fv.subrange(0, i as int));
        if str_eq(files[i].0.as_str(), id.as_str()) {
            let mut l = doc_links_exec(&files[i].0, &files[i].1);
            let ghost r0 = strs(r@);
            let ghost lv = strs(l@);
            r.append(&mut l);
            assert(strs(r@) =~= r0 + lv);
        }
        i = i + 1;
    }
    assert(fv.subrange(0, files@.len() as int) =~= fv);
    r
}

/// The documents linking to `id`, once per link.
fn links_to_exec(files: &Vec<(String, String)>, id: &String) -> (r: Vec<String>)
    ensures
        strs(r@) == links_to(trace_files(files@), id@),
{
    let ghost fv = trace_files(files@);
    let mut r: Vec<String> = Vec::new();
    let mut i: usize = 0;
    while i < files.len()
        invariant
            i <= files@.len(),
            fv == trace_files(files@),
            strs(r@) == links_to(fv.subrange(0, i as int), id@),
        decreases files@.len() - i,
    {
        let ghost sub = fv.subrange(0, i + 1);
        assert(sub.drop_last() =~= fv.subrange(0, i as int));
        let l = doc_links_exec(&files[i].0, &files[i].1);
        let ghost lv = strs(l@);
        let ghost stem = fv[i as int].0;
        let ghost r0 = strs(r@);
        let mut k: usize = 0;
        while k < l.len()
            invariant
                k <= l@.len(),
                lv == strs(l@),
                stem == files@[i as int].0@,
                i < files@.len(),
                strs(r@) == r0 + lv.subrange(0, k as int).filter(|t: Seq<char>| t == id@).map_values(|t: Seq<char>| stem),
            decreases l@.len() - k,
        {
            proof {
                let sb = lv.subrange(0, k + 1);
                assert(sb.drop_last() =~= lv.subrange(0, k as int));
                reveal_with_fuel(Seq::<_>::filter, 1);
            }
            if str_eq(l[k].as_str(), id.as_str()) {
                let ghost q = strs(r@);
                r.push(files[i].0.clone());
                assert(strs(r@) =~= q.push(stem));
            }
            k = k + 1;
        }
        assert(lv.subrange(0, l@.len() as int) =~= lv);
        i = i + 1;
    }
    assert(fv.subrange(0, files@.len() as int) =~= fv);
    r
}

/// How many of `n` more references fit under the limit of 100, with `cur`
/// already recorded.
pub open spec fn room(cur: nat, n: nat) -> nat {
    if cur >= 100 { 0 } else if n <= 100 - cur { n } else { (100 - cur) as nat }
}

/// Maximum number of references before links are no longer added.
pub const MAX_REFERENCES: usize = 100;

/// The references of a trace: ancestors, descendants, then links and (when
/// asked) backlinks while fewer than 100 references are recorded.
pub open spec fn spec_trace(cmd: TraceCommand, fs: Seq<(Seq<char>, Seq<char>)>) -> Seq<RefView> {
    let id = cmd.document_id@;
    let max = cmd.depth as nat;
    let base = ancestor_refs(fs, id, 1, max) + descendant_refs(fs, id, 1, max);
    let lf = links_from(fs, id);
    let with_links = base + lf.subrange(0, room(base.len(), lf.len()) as int)
        .map_values(|t: Seq<char>| (id, t, TraceType::Link, 1nat));
    if cmd.backlinks {
        let lt = links_to(fs, id);
        with_links + lt.subrange(0, room(with_links.len(), lt.len()) as int)
            .map_values(|s: Seq<char>| (s, id, TraceType::Backlink, 1nat))
    } else {
        with_links
    }
}

impl TraceCommand {
    /// The trace of the document over the documents given as (stem, content).
    pub fn run(&self, files: &Vec<(String, String)>) -> (r: TraceResult)
        requires
            self.depth < usize::MAX,
        ensures
            r.wf(),
            r.document_id@ == self.document_id@,
            refs_view(r.references@) == spec_trace(*self, trace_files(files@)),
    {
        let ghost fs = trace_files(files@);
        let mut result = TraceResult::new(self.document_id.as_str());
        assert(refs_view(result.references@) =~= Seq::<RefView>::empty());
        self.trace_ancestors(files, &self.document_id, 1, &mut result);
        self.trace_descendants(files, &self.document_id, 1, &mut result);
        let ghost base = refs_view(result.references@);
        assert(result.references@.len() == base.len() + room(base.len(), 0));
        let lf = links_from_exec(files, &self.document_id);
        let ghost lfv = strs(lf@);
        let mut k: usize = 0;
        while k < lf.len()
            invariant
                k <= lf@.len(),
                lfv == strs(lf@),
                result.wf(),
                result.document_id@ == self.document_id@,
                refs_view(result.references@) == base + lfv.subrange(0, room(base.len(), k as nat) as int)
                    .map_values(|t: Seq<char>| (self.document_id@, t, TraceType::Link, 1nat)),
                result.references@.len() == base.len() + room(base.len(), k as nat),
            decreases lf@.len() - k,
        {
            let ghost before = refs_view(result.references@);
            if result.references.len() < MAX_REFERENCES {
                push_ref(&mut result, self.document_id.clone(), lf[k].clone(), TraceType::Link, 1);
                assert(lfv.subrange(0, room(base.len(), (k + 1) as nat) as int)
                    =~= lfv.subrange(0, room(base.len(), k as nat) as int).push(lfv[k as int]));
            } else {
                assert(room(base.len(), (k + 1) as nat) == room(base.len(), k as nat));
            }
            assert(refs_view(result.references@) =~= base + lfv.subrange(0, room(base.len(), (k + 1) as nat) as int)
                .map_values(|t: Seq<char>| (self.document_id@, t, TraceType::Link, 1nat)));
            k = k + 1;
        }
        let ghost with_links = refs_view(result.references@);
        assert(result.references@.len() == with_links.len() + room(with_links.len(), 0));
        if self.backlinks {
            let lt = links_to_exec(files, &self.document_id);
            let ghost ltv = strs(lt@);
            let mut j: usize = 0;
            while j < lt.len()
                invariant
                    j <= lt@.len(),
                    ltv == strs(lt@),
                    result.wf(),
                    result.document_id@ == self.document_id@,
                    refs_view(result.references@) == with_links + ltv.subrange(0, room(with_links.len(), j as nat) as int)
                        .map_values(|s: Seq<char>| (s, self.document_id@, TraceType::Backlink, 1nat)),
                    result.references@.len() == with_links.len() + room(with_links.len(), j as nat),
                decreases lt@.len() - j,
            {
                if result.references.len() < MAX_REFERENCES {
                    push_ref(&mut result, lt[j].clone(), self.document_id.clone(), TraceType::Backlink, 1);
                    assert(ltv.subrange(0, room(with_links.len(), (j + 1) as nat) as int)
                        =~= ltv.subrange(0, room(with_links.len(), j as nat) as int).push(ltv[j as int]));
                } else {
                    assert(room(with_links.len(), (j + 1) as nat) == room(with_links.len(), j as nat));
                }
                assert(refs_view(result.references@) =~= with_links + ltv.subrange(0, room(with_links.len(), (j + 1) as nat) as int)
                    .map_values(|s: Seq<char>| (s, self.document_id@, TraceType::Backlink, 1nat)));
                j = j + 1;
            }
        }
        result
    }
}

} // verus!
