//! Restoration of archived documents.

use vstd::prelude::*;
use crate::patterns::{group, is_match, spec_group, spec_is_match, RE_DOCUMENT_ID};
use crate::paths::{path_join, spec_path_join};
use crate::text::{
    chars_of, count_matches, owned, spec_contains, spec_count_from, spec_starts_with, spec_trim,
    starts_with, str_eq, string_of, strs, trim, find,
};

verus! {

/// Outcome of a restoration.
#[derive(Debug, Clone)]
pub struct RestoreResult {
    pub snapshot_id: String,
    pub files_restored: usize,
    pub files_skipped: usize,
    pub conflicts: Vec<String>,
}

impl RestoreResult {
    pub fn new(snapshot_id: &str) -> (r: RestoreResult)
        ensures
            r.snapshot_id@ == snapshot_id@,
            r.files_restored == 0,
            r.files_skipped == 0,
            r.conflicts@.len() == 0,
    {
        RestoreResult { snapshot_id: owned(snapshot_id), files_restored: 0, files_skipped: 0, conflicts: Vec::new() }
    }

    pub fn has_conflicts(&self) -> (r: bool)
        ensures
            r == (self.conflicts@.len() > 0),
    {
        self.conflicts.len() > 0
    }
}

/// Options of the restore command.
#[derive(Debug, Clone)]
pub struct RestoreCommand {
    pub snapshot_id: String,
    pub force: bool,
    pub dry_run: bool,
    pub path: Option<String>,
    pub validate: bool,
    pub filter: Option<String>,
}

/// Whether an archived file is restored: its trimmed document id is the one
/// asked for, or its name contains it; and, with a filter that compiles,
/// its content matches the filter.
pub open spec fn spec_should_restore(cmd: RestoreCommand, name: Seq<char>, content: Seq<char>) -> bool {
    let by_id = match spec_group(RE_DOCUMENT_ID@, content, 1) {
        Some(id) => spec_trim(id) == cmd.snapshot_id@,
        None => false,
    };
    let wanted = by_id || spec_contains(name, cmd.snapshot_id@);
    match cmd.filter {
        Some(f) => wanted && (crate::patterns::spec_regex_is_match(f@, content) != Some(false)),
        None => wanted,
    }
}

/// A restorable file has a front matter (starts with `---` and holds at
/// least two `---`), a document id and a title.
pub open spec fn spec_valid_file(content: Seq<char>) -> bool {
    spec_starts_with(content, "---"@) && spec_count_from(content, "---"@, 0) >= 2
        && spec_contains(content, "document_id:"@) && spec_contains(content, "title:"@)
}

impl RestoreCommand {
    /// Whether an archived file (by name and content) is restored.
    pub fn should_restore(&self, name: &str, content: &str) -> (r: bool)
        ensures
            r == spec_should_restore(*self, name@, content@),
    {
        let by_id = match group(RE_DOCUMENT_ID, content, 1) {
            Some(id) => str_eq(string_of(&trim(&chars_of(id.as_str()))).as_str(), self.snapshot_id.as_str()),
            None => false,
        };
        let wanted = by_id || find(&chars_of(name), &chars_of(self.snapshot_id.as_str())).is_some();
        match &self.filter {
            Some(f) => wanted && crate::patterns::match_if_valid(f.as_str(), content),
            None => wanted,
        }
    }

    /// Whether an archived file looks complete enough to restore.
    pub fn validate_file(&self, content: &str) -> (r: bool)
        ensures
            r == spec_valid_file(content@),
    {
        let c = chars_of(content);
        let dash = chars_of("---");
        proof {
            reveal_strlit("---");
        }
        starts_with(&c, &dash) && count_matches(&c, &dash) >= 2
            && find(&c, &chars_of("document_id:")).is_some() && find(&c, &chars_of("title:")).is_some()
    }

    /// Where a restored file goes: `docs/<name>` in the data directory.
    pub fn destination(&self, data_dir: &str, name: &str) -> (p: String)
        ensures
            p@ == spec_path_join(spec_path_join(data_dir@, "docs"@), name@),
    {
        path_join(path_join(data_dir, "docs").as_str(), name)
    }
}

} // verus!
