//! Synchronisation of dates, hashes and child counts in the front matter.

use vstd::prelude::*;
use crate::text::{
    chars_of, concat2, concat3, decimal, find, owned, parse_usize, slice_to_vec, spec_contains,
    spec_decimal, spec_find, spec_parse_unsigned, spec_trim, str_eq, string_of, trim,
};
use crate::hash::{short_content_hash, spec_short_hash};
use crate::patterns::{
    group, is_match, replace_first, spec_group, spec_is_match, spec_replace_first, RE_CHILDREN_COUNT,
    RE_CONTENT_HASH, RE_LAST_UPDATED, RE_PARENT_ID, RE_TOTAL_CHILDREN, RE_TYPE,
};
use crate::paths::{file_stem, spec_file_stem};
use crate::clock::{has_shape, second_shape, iso_second_shape, utc_now_second, utc_now_iso_second};

verus! {

/// A change made to a field of a document.
#[derive(Debug, Clone)]
pub struct SyncChange {
    pub path: String,
    pub field: String,
    pub old_value: String,
    pub new_value: String,
}

/// A change as (path, field, old value, new value).
pub type ChangeView = (Seq<char>, Seq<char>, Seq<char>, Seq<char>);

/// The view of a change.
pub open spec fn change_view(c: SyncChange) -> ChangeView {
    (c.path@, c.field@, c.old_value@, c.new_value@)
}

/// The views of changes.
pub open spec fn changes_view(v: Seq<SyncChange>) -> Seq<ChangeView> {
    v.map_values(|c: SyncChange| change_view(c))
}

/// How a stored content hash compares with the current one.
#[derive(Debug, Clone)]
pub struct HashComparisonResult {
    pub has_changed: bool,
    pub current_hash: String,
    pub stored_hash: Option<String>,
}

/// What a synchronisation did.
#[derive(Debug, Clone)]
pub struct SyncResult {
    pub changes: Vec<SyncChange>,
    pub files_scanned: usize,
    pub files_modified: usize,
    pub skipped_tolerance: usize,
    pub hashes_initialized: usize,
}

/// Some change concerns path `p`.
pub open spec fn path_seen(cs: Seq<ChangeView>, p: Seq<char>) -> bool {
    exists|k: int| 0 <= k < cs.len() && (#[trigger] cs[k]).0 == p
}

/// The number of distinct paths among the changes.
pub open spec fn distinct_paths(cs: Seq<ChangeView>) -> nat
    decreases cs.len(),
{
    if cs.len() == 0 {
        0
    } else {
        distinct_paths(cs.drop_last()) + if path_seen(cs.drop_last(), cs.last().0) { 0nat } else { 1nat }
    }
}

impl SyncResult {
    /// The count of modified files is the number of distinct changed paths.
    pub open spec fn wf(&self) -> bool {
        self.files_modified == distinct_paths(changes_view(self.changes@))
    }

    /// Nothing done yet.
    pub fn new() -> (r: SyncResult)
        ensures
            r.changes@.len() == 0,
            r.files_scanned == 0,
            r.files_modified == 0,
            r.skipped_tolerance == 0,
            r.hashes_initialized == 0,
            r.wf(),
    {
        let r = SyncResult {
            changes: Vec::new(),
            files_scanned: 0,
            files_modified: 0,
            skipped_tolerance: 0,
            hashes_initialized: 0,
        };
        assert(changes_view(r.changes@) =~= Seq::<ChangeView>::empty());
        r
    }

    /// Records a change; a file counts as modified at its first change.
    pub fn add_change(&mut self, change: SyncChange)
        requires
            path_seen(changes_view(old(self).changes@), change.path@) || old(self).files_modified < usize::MAX,
        ensures
            changes_view(final(self).changes@) == changes_view(old(self).changes@).push(change_view(change)),
            final(self).files_modified == old(self).files_modified
                + if path_seen(changes_view(old(self).changes@), change.path@) { 0nat } else { 1nat },
            final(self).files_scanned == old(self).files_scanned,
            final(self).skipped_tolerance == old(self).skipped_tolerance,
            final(self).hashes_initialized == old(self).hashes_initialized,
            old(self).wf() ==> final(self).wf(),
    {
        let ghost cv = changes_view(self.changes@);
        let mut seen = false;
        let mut i: usize = 0;
        while i < self.changes.len()
            invariant
                i <= self.changes@.len(),
                cv == changes_view(self.changes@),
                seen == exists|k: int| 0 <= k < i && (#[trigger] cv[k]).0 == change.path@,
            decreases self.changes@.len() - i,
        {
            assert(cv[i as int].0 == self.changes@[i as int].path@);
            if str_eq(self.changes[i].path.as_str(), change.path.as_str()) {
                seen = true;
            }
            i = i + 1;
        }
        self.changes.push(change);
        if !seen {
            self.files_modified = self.files_modified + 1;
        }
        proof {
            let nv = changes_view(self.changes@);
            assert(nv =~= cv.push(change_view(change)));
            assert(nv.drop_last() =~= cv);
        }
    }

    /// Whether anything changed.
    pub fn has_changes(&self) -> (r: bool)
        ensures
            r == (self.changes@.len() > 0),
    {
        self.changes.len() > 0
    }
}

impl Default for SyncResult {
    fn default() -> (r: SyncResult)
        ensures
            r.changes@.len() == 0,
            r.files_scanned == 0,
            r.files_modified == 0,
            r.skipped_tolerance == 0,
            r.hashes_initialized == 0,
    {
        SyncResult::new()
    }
}

/// Options of the sync command.
#[derive(Debug, Clone)]
pub struct SyncCommand {
    pub path: Option<String>,
    pub dates_only: bool,
    pub hashes_only: bool,
    pub dry_run: bool,
    pub force: bool,
    pub breadcrumbs: bool,
    pub children: bool,
    pub fix_descendants: bool,
    pub fix_total: bool,
    pub tolerance: u64,
    pub fix_all: bool,
    pub module: Option<u8>,
}

// ─────────────────────────────────────────────────────────────────────────
// One document
// ─────────────────────────────────────────────────────────────────────────

/// Group 1 of the leftmost match, trimmed.
pub open spec fn trimmed_group(p: Seq<char>, t: Seq<char>) -> Option<Seq<char>> {
    match spec_group(p, t, 1) {
        Some(g) => Some(spec_trim(g)),
        None => None,
    }
}

/// The field line `name: "value"`.
pub open spec fn quoted_field(name: Seq<char>, v: Seq<char>) -> Seq<char> {
    name + ": \""@ + v + "\""@
}

/// The dates step: (changes, hashes initialized, documents left as they
/// were, text, changed). Without a stored hash (and without force) the
/// hash is inserted after the first `---` line when no `content_hash:`
/// occurs; with a stored hash equal to the current one (and without
/// force) nothing changes; otherwise the date becomes `now` and the hash
/// is replaced.
pub open spec fn dates_step(force: bool, path: Seq<char>, c: Seq<char>, h: Seq<char>, now: Seq<char>)
    -> (Seq<ChangeView>, nat, nat, Seq<char>, bool)
{
    let stored = trimmed_group(RE_CONTENT_HASH@, c);
    let has_changed = match stored { Some(s) => s != h, None => false };
    if stored is None && !force {
        if !spec_contains(c, "content_hash:"@) {
            match spec_find(c, "---\n"@) {
                Some(pos) => (Seq::empty(), 1, 0,
                    c.subrange(0, pos + 4) + quoted_field("content_hash"@, h) + "\n"@ + c.skip(pos + 4), true),
                None => (Seq::empty(), 0, 0, c, false),
            }
        } else {
            (Seq::empty(), 0, 0, c, false)
        }
    } else if stored is Some && !has_changed && !force {
        (Seq::empty(), 0, 1, c, false)
    } else {
        let old = match trimmed_group(RE_LAST_UPDATED@, c) { Some(d) => d, None => "N/A"@ };
        let m1 = spec_replace_first(RE_LAST_UPDATED@, c, quoted_field("last_updated"@, now));
        let m2 = spec_replace_first(RE_CONTENT_HASH@, m1, quoted_field("content_hash"@, h));
        (seq![(path, "last_updated"@, old, now)], 0, 0, m2, true)
    }
}

/// The hashes step on text `m`: a stored hash that differs from the
/// current one is replaced.
pub open spec fn hashes_step(path: Seq<char>, c: Seq<char>, h: Seq<char>, m: Seq<char>) -> (Seq<ChangeView>, Seq<char>, bool) {
    match trimmed_group(RE_CONTENT_HASH@, c) {
        Some(old) => if old != h {
            (seq![(path, "content_hash"@, old, h)], spec_replace_first(RE_CONTENT_HASH@, m, quoted_field("content_hash"@, h)), true)
        } else {
            (Seq::empty(), m, false)
        },
        None => (Seq::empty(), m, false),
    }
}

/// The children step on text `m`: a stored child count (0 when it does
/// not parse) that differs from `n` is replaced.
pub open spec fn children_step(path: Seq<char>, c: Seq<char>, n: nat, m: Seq<char>) -> (Seq<ChangeView>, Seq<char>, bool) {
    match spec_group(RE_CHILDREN_COUNT@, c, 1) {
        Some(g) => {
            let old = match spec_parse_unsigned(g, usize::MAX as nat) { Some(v) => v, None => 0 };
            if old != n {
                (seq![(path, "children_count"@, spec_decimal(old), spec_decimal(n))],
                 spec_replace_first(RE_CHILDREN_COUNT@, m, "children_count: "@ + spec_decimal(n)), true)
            } else {
                (Seq::empty(), m, false)
            }
        },
        None => (Seq::empty(), m, false),
    }
}

/// The synchronisation of one document: (changes, hashes initialized,
/// documents left as they were, new text, changed).
pub open spec fn spec_sync_file(cmd: SyncCommand, path: Seq<char>, c: Seq<char>, n: nat, now: Seq<char>)
    -> (Seq<ChangeView>, nat, nat, Seq<char>, bool)
{
    let h = spec_short_hash(c);
    let a = if !cmd.hashes_only { dates_step(cmd.force, path, c, h, now) } else { (Seq::empty(), 0, 0, c, false) };
    let b = if !cmd.dates_only { hashes_step(path, c, h, a.3) } else { (Seq::empty(), a.3, false) };
    let d = if cmd.children { children_step(path, c, n, b.1) } else { (Seq::empty(), b.1, false) };
    (a.0 + b.0 + d.0, a.1, a.2, d.1, a.4 || b.2 || d.2)
}

/// The changes of an optional change.
pub open spec fn opt_change(o: Option<SyncChange>) -> Seq<ChangeView> {
    match o {
        Some(c) => seq![change_view(c)],
        None => Seq::empty(),
    }
}

/// Group 1 of the leftmost match, trimmed.
fn trimmed_group_exec(p: &str, t: &str) -> (r: Option<String>)
    ensures
        match trimmed_group(p@, t@) {
            Some(g) => r matches Some(x) && x@ == g,
            None => r is None,
        },
{
    match group(p, t, 1) {
        Some(g) => Some(string_of(&trim(&chars_of(g.as_str())))),
        None => None,
    }
}

/// The field line `name: "value"`.
fn field_line(name: &str, v: &str) -> (r: String)
    ensures
        r@ == quoted_field(name@, v@),
{
    let a = concat3(name, ": \"", v);
    concat2(a.as_str(), "\"")
}

/// A change of `path`.
fn change(path: &str, field: &str, old_value: String, new_value: String) -> (c: SyncChange)
    ensures
        change_view(c) == (path@, field@, old_value@, new_value@),
{
    SyncChange { path: owned(path), field: owned(field), old_value, new_value }
}

/// The dates step (see [`dates_step`]).
fn dates_exec(force: bool, path: &str, content: &str, h: &String, now: &str) -> (r: (Option<SyncChange>, usize, usize, String, bool))
    ensures
        ({
            let s = dates_step(force, path@, content@, h@, now@);
            &&& opt_change(r.0) == s.0
            &&& r.1 == s.1
            &&& r.2 == s.2
            &&& r.3@ == s.3
            &&& r.4 == s.4
        }),
        r.0 matches Some(c) ==> c.path@ == path@,
{
    let stored = trimmed_group_exec(RE_CONTENT_HASH, content);
    let has_changed = match &stored {
        Some(x) => !str_eq(x.as_str(), h.as_str()),
        None => false,
    };
    if stored.is_none() && !force {
        let c = chars_of(content);
        let key = chars_of("content_hash:");
        if find(&c, &key).is_none() {
            let sep = chars_of("---\n");
            proof {
                reveal_strlit("---\n");
            }
            match find(&c, &sep) {
                Some(pos) => {
                    proof {
                        crate::text::lemma_find_from(c@, sep@, 0);
                        assert(sep@.len() == 4);
                        assert(crate::text::occurs_at(c@, sep@, pos as int));
                    }
                    let n = c.len();
                    assert(pos + 4 <= n);
                    let pre = string_of(&slice_to_vec(&c, 0, pos + 4));
                    let post = string_of(&slice_to_vec(&c, pos + 4, c.len()));
                    let f = field_line("content_hash", h.as_str());
                    let tail = concat2("\n", post.as_str());
                    let m = concat3(pre.as_str(), f.as_str(), tail.as_str());
                    assert(m@ =~= content@.subrange(0, pos + 4) + quoted_field("content_hash"@, h@) + "\n"@ + content@.skip(pos + 4));
                    (None, 1, 0, m, true)
                },
                None => (None, 0, 0, owned(content), false),
            }
        } else {
            (None, 0, 0, owned(content), false)
        }
    } else if stored.is_some() && !has_changed && !force {
        (None, 0, 1, owned(content), false)
    } else {
        let old = match trimmed_group_exec(RE_LAST_UPDATED, content) {
            Some(d) => d,
            None => owned("N/A"),
        };
        let m1 = replace_first(RE_LAST_UPDATED, content, field_line("last_updated", now).as_str());
        let m2 = replace_first(RE_CONTENT_HASH, m1.as_str(), field_line("content_hash", h.as_str()).as_str());
        (Some(change(path, "last_updated", old, owned(now))), 0, 0, m2, true)
    }
}

/// The hashes step (see [`hashes_step`]).
fn hashes_exec(path: &str, content: &str, h: &String, m: String) -> (r: (Option<SyncChange>, String, bool))
    ensures
        ({
            let s = hashes_step(path@, content@, h@, m@);
            &&& opt_change(r.0) == s.0
            &&& r.1@ == s.1
            &&& r.2 == s.2
        }),
        r.0 matches Some(c) ==> c.path@ == path@,
{
    match trimmed_group_exec(RE_CONTENT_HASH, content) {
        Some(old) => {
            if !str_eq(old.as_str(), h.as_str()) {
                let nm = replace_first(RE_CONTENT_HASH, m.as_str(), field_line("content_hash", h.as_str()).as_str());
                let hh = owned(h.as_str());
                (Some(change(path, "content_hash", old, hh)), nm, true)
            } else {
                (None, m, false)
            }
        },
        None => (None, m, false),
    }
}

/// The children step (see [`children_step`]).
fn children_exec(path: &str, content: &str, n: usize, m: String) -> (r: (Option<SyncChange>, String, bool))
    ensures
        ({
            let s = children_step(path@, content@, n as nat, m@);
            &&& opt_change(r.0) == s.0
            &&& r.1@ == s.1
            &&& r.2 == s.2
        }),
        r.0 matches Some(c) ==> c.path@ == path@,
{
    match group(RE_CHILDREN_COUNT, content, 1) {
        Some(g) => {
            let old: usize = match parse_usize(g.as_str()) {
                Some(v) => v,
                None => 0,
            };
            if old != n {
                let nd = decimal(n);
                let rep = concat2("children_count: ", nd.as_str());
                let nm = replace_first(RE_CHILDREN_COUNT, m.as_str(), rep.as_str());
                (Some(change(path, "children_count", decimal(old), nd)), nm, true)
            } else {
                (None, m, false)
            }
        },
        None => (None, m, false),
    }
}

impl SyncCommand {
    /// Synchronises one document with `children` child documents, at time
    /// `now`: records its changes in `result` and gives the new text when
    /// it changed and this is no dry run.
    #[verifier::rlimit(40)]
    pub fn sync_file_at(&self, path: &str, content: &str, children: usize, now: &str, result: &mut SyncResult) -> (w: Option<String>)
        requires
            path_seen(changes_view(old(result).changes@), path@) || old(result).files_modified < usize::MAX,
            old(result).hashes_initialized < usize::MAX,
            old(result).skipped_tolerance < usize::MAX,
        ensures
            ({
                let s = spec_sync_file(*self, path@, content@, children as nat, now@);
                &&& changes_view(final(result).changes@) == changes_view(old(result).changes@) + s.0
                &&& final(result).hashes_initialized == old(result).hashes_initialized + s.1
                &&& final(result).skipped_tolerance == old(result).skipped_tolerance + s.2
                &&& final(result).files_scanned == old(result).files_scanned
                &&& final(result).files_modified == old(result).files_modified
                    + if s.0.len() > 0 && !path_seen(changes_view(old(result).changes@), path@) { 1nat } else { 0nat }
                &&& (old(result).wf() ==> final(result).wf())
                &&& match w {
                    Some(t) => s.4 && !self.dry_run && t@ == s.3,
                    None => !(s.4 && !self.dry_run),
                }
            }),
    {
        let ghost c0 = changes_view(result.changes@);
        let h = short_content_hash(content);
        let a = if !self.hashes_only {
            dates_exec(self.force, path, content, &h, now)
        } else {
            (None, 0, 0, owned(content), false)
        };
        let b = if !self.dates_only {
            hashes_exec(path, content, &h, a.3)
        } else {
            (None, a.3, false)
        };
        let d = if self.children {
            children_exec(path, content, children, b.1)
        } else {
            (None, b.1, false)
        };
        proof {
            assert(opt_change(a.0) + opt_change(b.0) + opt_change(d.0) == spec_sync_file(*self, path@, content@, children as nat, now@).0);
        }
        self.add_opt(result, a.0, Ghost(path@));
        self.add_opt(result, b.0, Ghost(path@));
        self.add_opt(result, d.0, Ghost(path@));
        assert(changes_view(result.changes@) =~= c0 + opt_change(a.0) + opt_change(b.0) + opt_change(d.0));
        result.hashes_initialized = result.hashes_initialized + a.1;
        result.skipped_tolerance = result.skipped_tolerance + a.2;
        if (a.4 || b.2 || d.2) && !self.dry_run {
            Some(d.1)
        } else {
            None
        }
    }

    /// Records an optional change of `p`.
    fn add_opt(&self, result: &mut SyncResult, o: Option<SyncChange>, Ghost(p): Ghost<Seq<char>>)
        requires
            o matches Some(c) ==> c.path@ == p,
            path_seen(changes_view(old(result).changes@), p) || old(result).files_modified < usize::MAX,
        ensures
            changes_view(final(result).changes@) == changes_view(old(result).changes@) + opt_change(o),
            final(result).files_modified == old(result).files_modified
                + if o is Some && !path_seen(changes_view(old(result).changes@), p) { 1nat } else { 0nat },
            final(result).files_scanned == old(result).files_scanned,
            final(result).skipped_tolerance == old(result).skipped_tolerance,
            final(result).hashes_initialized == old(result).hashes_initialized,
            old(result).wf() ==> final(result).wf(),
            path_seen(changes_view(final(result).changes@), p) || final(result).files_modified < usize::MAX,
            path_seen(changes_view(old(result).changes@), p) ==> path_seen(changes_view(final(result).changes@), p),
    {
        let ghost c0 = changes_view(result.changes@);
        match o {
            Some(c) => {
                result.add_change(c);
                proof {
                    let c1 = changes_view(result.changes@);
                    assert(c1[c1.len() - 1].0 == p);
                    if path_seen(c0, p) {
                        let k = choose|k: int| 0 <= k < c0.len() && (#[trigger] c0[k]).0 == p;
                        assert(c1[k] == c0[k]);
                    }
                }
            },
            None => {
                assert(c0 + opt_change(o) =~= c0);
            },
        }
    }
}

// ─────────────────────────────────────────────────────────────────────────
// The whole project
// ─────────────────────────────────────────────────────────────────────────

/// A file as (path, stem, content when it could be read).
pub type FileView = (Seq<char>, Seq<char>, Option<Seq<char>>);

/// The views of the files.
pub open spec fn files_view(v: Seq<(String, String, Option<String>)>) -> Seq<FileView> {
    v.map_values(|x: (String, String, Option<String>)| (x.0@, x.1@, match x.2 { Some(c) => Some(c@), None => None }))
}

/// The views of (path, text) pairs.
pub open spec fn writes_view(v: Seq<(String, String)>) -> Seq<(Seq<char>, Seq<char>)> {
    v.map_values(|x: (String, String)| (x.0@, x.1@))
}

/// The parent a document names (`parent_id`), unless `null` or empty.
pub open spec fn parent_of(c: Seq<char>) -> Option<Seq<char>> {
    match trimmed_group(RE_PARENT_ID@, c) {
        Some(p) => if p != "null"@ && p.len() > 0 { Some(p) } else { None },
        None => None,
    }
}

/// The parent of a file, if it could be read and names one.
pub open spec fn file_parent(f: FileView) -> Option<Seq<char>> {
    match f.2 {
        Some(c) => parent_of(c),
        None => None,
    }
}

/// The number of files whose parent is `id`.
pub open spec fn children_count(fs: Seq<FileView>, id: Seq<char>) -> nat
    decreases fs.len(),
{
    if fs.len() == 0 {
        0
    } else {
        children_count(fs.drop_last(), id) + if file_parent(fs.last()) == Some(id) { 1nat } else { 0nat }
    }
}

/// The synchronisation of the files `fs` (among `all`), the readable
/// ones at the times `nows` (one per file): (changes, hashes
/// initialized, documents left as they were, texts to write as (path,
/// text)).
pub open spec fn sync_all(cmd: SyncCommand, fs: Seq<FileView>, all: Seq<FileView>, nows: Seq<Seq<char>>)
    -> (Seq<ChangeView>, nat, nat, Seq<(Seq<char>, Seq<char>)>)
    decreases fs.len(),
{
    if fs.len() == 0 || nows.len() == 0 {
        (Seq::empty(), 0, 0, Seq::empty())
    } else {
        let p = sync_all(cmd, fs.drop_last(), all, nows.drop_last());
        let f = fs.last();
        match f.2 {
            Some(c) => {
                let s = spec_sync_file(cmd, f.0, c, children_count(all, f.1), nows.last());
                (p.0 + s.0, p.1 + s.1, p.2 + s.2, if s.4 && !cmd.dry_run { p.3.push((f.0, s.3)) } else { p.3 })
            },
            None => p,
        }
    }
}

/// The parent of a document.
fn parent_exec(c: &String) -> (r: Option<String>)
    ensures
        match parent_of(c@) {
            Some(p) => r matches Some(x) && x@ == p,
            None => r is None,
        },
{
    match trimmed_group_exec(RE_PARENT_ID, c.as_str()) {
        Some(p) => {
            if !str_eq(p.as_str(), "null") && !p.as_str().is_empty() {
                Some(p)
            } else {
                proof {
                    reveal_strlit("null");
                }
                None
            }
        },
        None => None,
    }
}

/// The parents of the files.
fn parents_exec(files: &Vec<(String, String, Option<String>)>) -> (r: Vec<Option<String>>)
    ensures
        r@.len() == files@.len(),
        forall|k: int| 0 <= k < r@.len() ==> match file_parent(#[trigger] files_view(files@)[k]) {
            Some(p) => r@[k] matches Some(x) && x@ == p,
            None => r@[k] is None,
        },
{
    let ghost fv = files_view(files@);
    let mut r: Vec<Option<String>> = Vec::new();
    let mut i: usize = 0;
    while i < files.len()
        invariant
            i <= files@.len(),
            fv == files_view(files@),
            r@.len() == i,
            forall|k: int| 0 <= k < i ==> match file_parent(#[trigger] fv[k]) {
                Some(p) => r@[k] matches Some(x) && x@ == p,
                None => r@[k] is None,
            },
        decreases files@.len() - i,
    {
        let p = match &files[i].2 {
            Some(c) => parent_exec(c),
            None => None,
        };
        r.push(p);
        i = i + 1;
    }
    r
}

/// The number of files whose parent is `id`.
fn children_exec_count(parents: &Vec<Option<String>>, id: &String, Ghost(fv): Ghost<Seq<FileView>>) -> (n: usize)
    requires
        parents@.len() == fv.len(),
        forall|k: int| 0 <= k < parents@.len() ==> match file_parent(#[trigger] fv[k]) {
            Some(p) => parents@[k] matches Some(x) && x@ == p,
            None => parents@[k] is None,
        },
    ensures
        n == children_count(fv, id@),
{
    let mut n: usize = 0;
    let mut j: usize = 0;
    while j < parents.len()
        invariant
            j <= parents@.len(),
            parents@.len() == fv.len(),
            forall|k: int| 0 <= k < parents@.len() ==> match file_parent(#[trigger] fv[k]) {
                Some(p) => parents@[k] matches Some(x) && x@ == p,
                None => parents@[k] is None,
            },
            n == children_count(fv.subrange(0, j as int), id@),
            n <= j,
        decreases parents@.len() - j,
    {
        let ghost sub = fv.subrange(0, j + 1);
        assert(sub.drop_last() =~= fv.subrange(0, j as int));
        assert(sub.last() == fv[j as int]);
        let hit = match &parents[j] {
            Some(x) => str_eq(x.as_str(), id.as_str()),
            None => false,
        };
        if hit {
            n = n + 1;
        }
        j = j + 1;
    }
    assert(fv.subrange(0, fv.len() as int) =~= fv);
    n
}

/// The stem of a path, or the empty text when it has none.
pub open spec fn stem_or_empty(p: Seq<char>) -> Seq<char> {
    match spec_file_stem(p) {
        Some(s) => s,
        None => Seq::empty(),
    }
}

/// For each listed change, the number of files whose parent is the
/// changed file (its stem), added up.
pub open spec fn children_of_changes(fs: Seq<FileView>, cs: Seq<ChangeView>) -> nat
    decreases cs.len(),
{
    if cs.len() == 0 {
        0
    } else {
        children_of_changes(fs, cs.drop_last()) + children_count(fs, stem_or_empty(cs.last().0))
    }
}

/// A document is an index whose `total_children` can be checked: its
/// trimmed `type` holds `indice` or `modulo_padre`, and it has a
/// `total_children` field.
pub open spec fn is_total_index(c: Seq<char>) -> bool {
    &&& spec_group(RE_TYPE@, c, 1) matches Some(t)
        && (spec_contains(spec_trim(t), "indice"@) || spec_contains(spec_trim(t), "modulo_padre"@))
    &&& spec_is_match(RE_TOTAL_CHILDREN@, c)
}

/// Number of documents that are indices with a `total_children` field.
pub open spec fn total_indices(cs: Seq<Seq<char>>) -> nat
    decreases cs.len(),
{
    if cs.len() == 0 { 0 } else { total_indices(cs.drop_last()) + if is_total_index(cs.last()) { 1nat } else { 0nat } }
}

proof fn lemma_total_indices_bound(cs: Seq<Seq<char>>)
    ensures
        total_indices(cs) <= cs.len(),
    decreases cs.len(),
{
    if cs.len() > 0 {
        lemma_total_indices_bound(cs.drop_last());
    }
}

impl SyncCommand {
    /// Synchronises the files, each given as (path, stem, content when it
    /// could be read), the readable ones at the moment they are reached:
    /// what changed, and the texts to write as (path, text).
    pub fn run(&self, files: &Vec<(String, String, Option<String>)>) -> (r: (SyncResult, Vec<(String, String)>))
        ensures
            r.0.files_scanned == files@.len(),
            r.0.wf(),
            exists|nows: Seq<Seq<char>>| nows.len() == files@.len()
                && (forall|k: int| 0 <= k < files@.len() && (#[trigger] files@[k]).2 is Some ==> has_shape(nows[k], second_shape()))
                && sync_all(*self, files_view(files@), files_view(files@), nows)
                    == (changes_view(r.0.changes@), r.0.hashes_initialized as nat, r.0.skipped_tolerance as nat, writes_view(r.1@)),
    {
        let ghost fv = files_view(files@);
        let parents = parents_exec(files);
        let mut result = SyncResult::new();
        result.files_scanned = files.len();
        let mut writes: Vec<(String, String)> = Vec::new();
        let ghost mut nows: Seq<Seq<char>> = Seq::empty();
        let mut i: usize = 0;
        assert(changes_view(result.changes@) =~= Seq::<ChangeView>::empty());
        assert(writes_view(writes@) =~= Seq::<(Seq<char>, Seq<char>)>::empty());
        while i < files.len()
            invariant
                i <= files@.len(),
                fv == files_view(files@),
                parents@.len() == fv.len(),
                forall|k: int| 0 <= k < parents@.len() ==> match file_parent(#[trigger] fv[k]) {
                    Some(p) => parents@[k] matches Some(x) && x@ == p,
                    None => parents@[k] is None,
                },
                nows.len() == i,
                forall|k: int| 0 <= k < i && (#[trigger] files@[k]).2 is Some ==> has_shape(nows[k], second_shape()),
                sync_all(*self, fv.subrange(0, i as int), fv, nows)
                    == (changes_view(result.changes@), result.hashes_initialized as nat, result.skipped_tolerance as nat, writes_view(writes@)),
                result.wf(),
                result.files_scanned == files@.len(),
                result.files_modified <= i,
                result.hashes_initialized <= i,
                result.skipped_tolerance <= i,
            decreases files@.len() - i,
        {
            let ghost sub = fv.subrange(0, i + 1);
            assert(sub.drop_last() =~= fv.subrange(0, i as int));
            assert(sub.last() == fv[i as int]);
            match &files[i].2 {
                Some(content) => {
                    let n = children_exec_count(&parents, &files[i].1, Ghost(fv));
                    let now = utc_now_second();
                    let ghost w0 = writes_view(writes@);
                    let w = self.sync_file_at(files[i].0.as_str(), content.as_str(), n, now.as_str(), &mut result);
                    match w {
                        Some(t) => {
                            writes.push((owned(files[i].0.as_str()), t));
                            assert(writes_view(writes@) =~= w0.push((fv[i as int].0, writes@.last().1@)));
                        },
                        None => {},
                    }
                    proof {
                        assert(nows.push(now@).drop_last() =~= nows);
                        nows = nows.push(now@);
                    }
                },
                None => {
                    proof {
                        assert(nows.push(Seq::empty()).drop_last() =~= nows);
                        nows = nows.push(Seq::empty());
                    }
                },
            }
            i = i + 1;
        }
        assert(fv.subrange(0, files@.len() as int) =~= fv);
        (result, writes)
    }

    /// The children updated when the synchronisation is propagated to
    /// descendants: for each change, the files whose parent is the changed
    /// file; none in a dry run. The count stops at the largest `usize`.
    pub fn descendants_updated(&self, files: &Vec<(String, String, Option<String>)>, changes: &Vec<SyncChange>) -> (n: usize)
        ensures
            n == if self.dry_run { 0 } else {
                let t = children_of_changes(files_view(files@), changes_view(changes@));
                if t > usize::MAX { usize::MAX as nat } else { t }
            },
    {
        if self.dry_run {
            return 0;
        }
        let ghost fv = files_view(files@);
        let ghost cv = changes_view(changes@);
        let parents = parents_exec(files);
        let mut n: usize = 0;
        let mut i: usize = 0;
        while i < changes.len()
            invariant
                i <= changes@.len(),
                fv == files_view(files@),
                cv == changes_view(changes@),
                parents@.len() == fv.len(),
                forall|k: int| 0 <= k < parents@.len() ==> match file_parent(#[trigger] fv[k]) {
                    Some(p) => parents@[k] matches Some(x) && x@ == p,
                    None => parents@[k] is None,
                },
                n == ({
                    let t = children_of_changes(fv, cv.subrange(0, i as int));
                    if t > usize::MAX { usize::MAX as nat } else { t }
                }),
            decreases changes@.len() - i,
        {
            let ghost sub = cv.subrange(0, i + 1);
            assert(sub.drop_last() =~= cv.subrange(0, i as int));
            assert(sub.last().0 == changes@[i as int].path@);
            let id = match file_stem(changes[i].path.as_str()) {
                Some(st) => st,
                None => String::new(),
            };
            let c = children_exec_count(&parents, &id, Ghost(fv));
            n = if n > usize::MAX - c { usize::MAX } else { n + c };
            i = i + 1;
        }
        assert(cv.subrange(0, changes@.len() as int) =~= cv);
        n
    }

    /// The indices whose `total_children` is checked (see [`is_total_index`]),
    /// among the documents that could be read.
    pub fn total_indices_checked(contents: &Vec<String>) -> (n: usize)
        ensures
            n == total_indices(crate::text::strs(contents@)),
    {
        let ghost cs = crate::text::strs(contents@);
        let mut n: usize = 0;
        let mut i: usize = 0;
        while i < contents.len()
            invariant
                i <= contents@.len(),
                cs == crate::text::strs(contents@),
                n == total_indices(cs.subrange(0, i as int)),
            decreases contents@.len() - i,
        {
            let ghost sub = cs.subrange(0, i + 1);
            assert(sub.drop_last() =~= cs.subrange(0, i as int));
            assert(sub.last() == contents@[i as int]@);
            proof {
                lemma_total_indices_bound(cs.subrange(0, i as int));
            }
            let c = contents[i].as_str();
            let is_index = match group(RE_TYPE, c, 1) {
                Some(t) => {
                    let tt = trim(&chars_of(t.as_str()));
                    find(&tt, &chars_of("indice")).is_some() || find(&tt, &chars_of("modulo_padre")).is_some()
                },
                None => false,
            };
            if is_index && is_match(RE_TOTAL_CHILDREN, c) {
                n = n + 1;
            }
            i = i + 1;
        }
        assert(cs.subrange(0, contents@.len() as int) =~= cs);
        n
    }

    /// The current UTC time as `YYYY-MM-DDTHH:MM:SS`: nineteen characters,
    /// digits but for the `-`, `T` and `:` separators. Which time it is
    /// depends on the moment of the call.
    pub fn current_timestamp() -> (r: String)
        ensures
            has_shape(r@, iso_second_shape()),
    {
        utc_now_iso_second()
    }
}

} // verus!
