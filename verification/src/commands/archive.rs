//! Archiving of obsolete or finished documents.

use vstd::prelude::*;
use crate::patterns::{group, spec_group, RE_DOCUMENT_ID, RE_STATUS};
use crate::text::{
    chars_of, owned, replace_str, spec_contains, spec_replace, spec_split, spec_to_lowercase,
    spec_trim, split, string_of, strs, to_lowercase, trim, views, find,
};

verus! {

/// Outcome of an archive run.
#[derive(Debug, Clone)]
pub struct ArchiveResult {
    pub archive_path: String,
    pub files_archived: usize,
    pub total_bytes: usize,
}

impl ArchiveResult {
    pub fn new(path: &str) -> (r: ArchiveResult)
        ensures
            r.archive_path@ == path@,
            r.files_archived == 0,
            r.total_bytes == 0,
    {
        ArchiveResult { archive_path: owned(path), files_archived: 0, total_bytes: 0 }
    }
}

/// Options of the archive command.
#[derive(Debug, Clone)]
pub struct ArchiveCommand {
    pub path: Option<String>,
    pub output: Option<String>,
    pub status: Option<String>,
    pub compress: bool,
    pub doc_id: Option<String>,
    pub dry_run: bool,
    pub update_refs: bool,
}

/// Statuses archived when none is given.
pub const DEFAULT_ARCHIVE_STATUSES: &'static str = "deprecated,obsolete,archived";

/// Suffix written after a reference to an archived document.
pub const ARCHIVED_MARK: &'static str = " (ARCHIVADO)";

/// The statuses to archive: the comma-separated list given (or the default
/// one), each entry trimmed.
pub open spec fn spec_archive_statuses(status: Option<Seq<char>>) -> Seq<Seq<char>> {
    let src = match status {
        Some(s) => s,
        None => DEFAULT_ARCHIVE_STATUSES@,
    };
    spec_split(src, ',').map_values(|x: Seq<char>| spec_trim(x))
}

/// Whether a document status (trimmed and lower-cased) contains one of the
/// lower-cased statuses.
pub open spec fn spec_status_selected(statuses: Seq<Seq<char>>, file_status: Seq<char>) -> bool {
    exists|k: int| 0 <= k < statuses.len()
        && spec_contains(spec_to_lowercase(spec_trim(file_status)), #[trigger] spec_to_lowercase(statuses[k]))
}

/// The option's text, if any.
pub open spec fn opt_view(o: Option<String>) -> Option<Seq<char>> {
    match o {
        Some(s) => Some(s@),
        None => None,
    }
}

/// Whether a document is archived: its status is selected, or its trimmed
/// id is the requested one.
pub open spec fn spec_should_archive(cmd: ArchiveCommand, file_status: Option<Seq<char>>, file_id: Option<Seq<char>>) -> bool {
    (match file_status {
        Some(st) => spec_status_selected(spec_archive_statuses(opt_view(cmd.status)), st),
        None => false,
    }) || (match (cmd.doc_id, file_id) {
        (Some(t), Some(id)) => spec_trim(id) == t@,
        _ => false,
    })
}

/// The three forms of a reference to a document id.
pub open spec fn reference_patterns(id: Seq<char>) -> Seq<Seq<char>> {
    seq!["[["@ + id + "]]"@, "["@ + id + "]"@, "parent_id: "@ + id]
}

/// One reference form marked as archived, where it occurs.
pub open spec fn mark_pattern(c: Seq<char>, p: Seq<char>) -> Seq<char> {
    if spec_contains(c, p) { spec_replace(c, p, p + ARCHIVED_MARK@) } else { c }
}

/// Every reference form of `id` marked, in order.
pub open spec fn mark_id(c: Seq<char>, id: Seq<char>) -> Seq<char> {
    let ps = reference_patterns(id);
    mark_pattern(mark_pattern(mark_pattern(c, ps[0]), ps[1]), ps[2])
}

/// Whether marking `id` changes anything.
pub open spec fn id_found(c: Seq<char>, id: Seq<char>) -> bool {
    let ps = reference_patterns(id);
    spec_contains(c, ps[0]) || spec_contains(mark_pattern(c, ps[0]), ps[1])
        || spec_contains(mark_pattern(mark_pattern(c, ps[0]), ps[1]), ps[2])
}

/// The references to every id marked, ids taken in order.
pub open spec fn mark_ids(c: Seq<char>, ids: Seq<Seq<char>>) -> Seq<char>
    decreases ids.len(),
{
    if ids.len() == 0 { c } else { mark_id(mark_ids(c, ids.drop_last()), ids.last()) }
}

/// Whether some reference was marked.
pub open spec fn ids_found(c: Seq<char>, ids: Seq<Seq<char>>) -> bool
    decreases ids.len(),
{
    if ids.len() == 0 { false } else {
        ids_found(c, ids.drop_last()) || id_found(mark_ids(c, ids.drop_last()), ids.last())
    }
}

/// Marks one reference form.
fn mark_one(c: &String, p: &String) -> (r: (String, bool))
    requires
        p@.len() > 0,
    ensures
        r.0@ == mark_pattern(c@, p@),
        r.1 == spec_contains(c@, p@),
{
    let cv = chars_of(c.as_str());
    let pv = chars_of(p.as_str());
    if find(&cv, &pv).is_some() {
        let mut rep = p.clone();
        rep.append(ARCHIVED_MARK);
        (replace_str(c.as_str(), p.as_str(), rep.as_str()), true)
    } else {
        (c.clone(), false)
    }
}

impl ArchiveCommand {
    /// The statuses this command archives.
    pub fn archive_statuses(&self) -> (r: Vec<String>)
        ensures
            strs(r@) == spec_archive_statuses(opt_view(self.status)),
    {
        let src = match &self.status {
            Some(s) => chars_of(s.as_str()),
            None => chars_of(DEFAULT_ARCHIVE_STATUSES),
        };
        let parts = split(&src, ',');
        let mut r: Vec<String> = Vec::new();
        let mut i: usize = 0;
        while i < parts.len()
            invariant
                i <= parts@.len(),
                views(parts@) == spec_split(src@, ','),
                strs(r@) == spec_split(src@, ',').map_values(|x: Seq<char>| spec_trim(x)).subrange(0, i as int),
            decreases parts@.len() - i,
        {
            let t = trim(parts[i].as_slice());
            let ghost before = r@;
            r.push(string_of(&t));
            proof {
                assert(views(parts@)[i as int] == parts@[i as int]@);
                assert(strs(r@) =~= strs(before).push(t@));
            }
            i = i + 1;
        }
        proof {
            assert(spec_split(src@, ',').map_values(|x: Seq<char>| spec_trim(x)).subrange(0, i as int)
                =~= spec_split(src@, ',').map_values(|x: Seq<char>| spec_trim(x)));
        }
        r
    }

    /// Whether a document with the given status and id fields is archived.
    pub fn should_archive(&self, file_status: Option<&str>, file_id: Option<&str>) -> (r: bool)
        ensures
            r == spec_should_archive(*self, match file_status { Some(s) => Some(s@), None => None },
                match file_id { Some(s) => Some(s@), None => None }),
    {
        let mut selected = false;
        if let Some(st) = file_status {
            let statuses = self.archive_statuses();
            let low = to_lowercase(string_of(&trim(&chars_of(st))).as_str());
            let lowv = chars_of(low.as_str());
            let mut k: usize = 0;
            while k < statuses.len()
                invariant
                    k <= statuses@.len(),
                    strs(statuses@) == spec_archive_statuses(opt_view(self.status)),
                    lowv@ == spec_to_lowercase(spec_trim(st@)),
                    selected == exists|j: int| 0 <= j < k
                        && spec_contains(lowv@, #[trigger] spec_to_lowercase(strs(statuses@)[j])),
                decreases statuses@.len() - k,
            {
                let s = to_lowercase(statuses[k].as_str());
                let sv = chars_of(s.as_str());
                if find(&lowv, &sv).is_some() {
                    selected = true;
                }
                proof {
                    assert(strs(statuses@)[k as int] == statuses@[k as int]@);
                }
                k = k + 1;
            }
        }
        let mut by_id = false;
        if let Some(t) = &self.doc_id {
            if let Some(id) = file_id {
                let tid = trim(&chars_of(id));
                let tv = chars_of(t.as_str());
                by_id = crate::text::seq_eq(&tid, &tv);
            }
        }
        selected || by_id
    }

    /// Whether a document's content makes it archived: its `status` and
    /// `document_id` fields are read with the front matter patterns.
    pub fn should_archive_content(&self, content: &str) -> (r: bool)
        ensures
            r == spec_should_archive(*self, spec_group(RE_STATUS@, content@, 1),
                spec_group(RE_DOCUMENT_ID@, content@, 1)),
    {
        let st = group(RE_STATUS, content, 1);
        let id = group(RE_DOCUMENT_ID, content, 1);
        let sr = match &st { Some(s) => Some(s.as_str()), None => None };
        let ir = match &id { Some(s) => Some(s.as_str()), None => None };
        self.should_archive(sr, ir)
    }
}

/// Marks every reference to the archived ids (`[[id]]`, `[id]`,
/// `parent_id: id`) with the archived suffix; also says whether any was found.
pub fn mark_archived_references(content: &str, ids: &Vec<String>) -> (r: (String, bool))
    ensures
        r.0@ == mark_ids(content@, strs(ids@)),
        r.1 == ids_found(content@, strs(ids@)),
{
    let mut c = owned(content);
    let mut changed = false;
    let mut i: usize = 0;
    while i < ids.len()
        invariant
            i <= ids@.len(),
            c@ == mark_ids(content@, strs(ids@).subrange(0, i as int)),
            changed == ids_found(content@, strs(ids@).subrange(0, i as int)),
        decreases ids@.len() - i,
    {
        let id = &ids[i];
        let p0 = crate::text::concat3("[[", id.as_str(), "]]");
        let p1 = crate::text::concat3("[", id.as_str(), "]");
        let p2 = crate::text::concat2("parent_id: ", id.as_str());
        proof {
            reveal_strlit("[[");
            reveal_strlit("[");
            reveal_strlit("parent_id: ");
        }
        let (c0, f0) = mark_one(&c, &p0);
        let (c1, f1) = mark_one(&c0, &p1);
        let (c2, f2) = mark_one(&c1, &p2);
        proof {
            let sub = strs(ids@).subrange(0, i + 1);
            assert(sub.drop_last() =~= strs(ids@).subrange(0, i as int));
            assert(sub.last() == id@);
            let ps = reference_patterns(id@);
            assert(ps[0] == p0@);
            assert(ps[1] == p1@);
            assert(ps[2] == p2@);
        }
        c = c2;
        changed = changed || f0 || f1 || f2;
        i = i + 1;
    }
    proof {
        assert(strs(ids@).subrange(0, ids@.len() as int) =~= strs(ids@));
    }
    (c, changed)
}

} // verus!
