//! Which files a scan of the documentation takes.

use vstd::prelude::*;
use crate::text::{chars_of, find, spec_contains, spec_starts_with, starts_with, str_eq, strs};

verus! {

/// How the documentation is scanned.
#[derive(Debug, Clone)]
pub struct ScanOptions {
    pub exclude_patterns: Vec<String>,
    pub max_depth: usize,
    pub follow_symlinks: bool,
    pub include_hidden: bool,
}

/// What is known of a file.
#[derive(Debug, Clone)]
pub struct FileMetadata {
    pub path: String,
    pub size: u64,
    /// Modification time, in seconds since the epoch.
    pub modified: u64,
    pub is_symlink: bool,
}

impl Default for ScanOptions {
    fn default() -> (o: ScanOptions)
        ensures
            o.exclude_patterns@.len() == 0,
            o.max_depth == 0,
            !o.follow_symlinks,
            !o.include_hidden,
    {
        ScanOptions { exclude_patterns: Vec::new(), max_depth: 0, follow_symlinks: false, include_hidden: false }
    }
}

/// Some pattern occurs in the text.
pub open spec fn any_pattern_in(ps: Seq<Seq<char>>, t: Seq<char>) -> bool {
    exists|k: int| 0 <= k < ps.len() && spec_contains(t, #[trigger] ps[k])
}

impl ScanOptions {
    /// No exclusion, no depth limit, no symbolic links, no hidden files.
    pub fn new() -> (o: ScanOptions)
        ensures
            o.exclude_patterns@.len() == 0,
            o.max_depth == 0,
            !o.follow_symlinks,
            !o.include_hidden,
    {
        ScanOptions::default()
    }

    /// The same options with these exclusion patterns.
    pub fn with_excludes(self, patterns: Vec<String>) -> (o: ScanOptions)
        ensures
            o.exclude_patterns@ == patterns@,
            o.max_depth == self.max_depth,
            o.follow_symlinks == self.follow_symlinks,
            o.include_hidden == self.include_hidden,
    {
        ScanOptions { exclude_patterns: patterns, ..self }
    }

    /// The same options with this depth limit (0 for none).
    pub fn with_max_depth(self, depth: usize) -> (o: ScanOptions)
        ensures
            o.exclude_patterns@ == self.exclude_patterns@,
            o.max_depth == depth,
            o.follow_symlinks == self.follow_symlinks,
            o.include_hidden == self.include_hidden,
    {
        ScanOptions { max_depth: depth, ..self }
    }

    /// The same options, taking hidden files or not.
    pub fn with_hidden(self, hidden: bool) -> (o: ScanOptions)
        ensures
            o.exclude_patterns@ == self.exclude_patterns@,
            o.max_depth == self.max_depth,
            o.follow_symlinks == self.follow_symlinks,
            o.include_hidden == hidden,
    {
        ScanOptions { include_hidden: hidden, ..self }
    }

    /// Whether a regular file is taken, given its name (if it is valid
    /// text), its extension (likewise) and its path as text: a Markdown
    /// file, not hidden unless hidden files are taken, and whose path holds
    /// no exclusion pattern.
    pub fn accepts(&self, file_name: &Option<String>, extension: &Option<String>, path_text: &str) -> (r: bool)
        ensures
            r == ((match *extension { Some(e) => e@ == "md"@, None => false })
                && (self.include_hidden || !(match *file_name { Some(n) => spec_starts_with(n@, "."@), None => false }))
                && !any_pattern_in(strs(self.exclude_patterns@), path_text@)),
    {
        let md = match extension {
            Some(e) => str_eq(e.as_str(), "md"),
            None => false,
        };
        if !md {
            return false;
        }
        if !self.include_hidden {
            match file_name {
                Some(n) => {
                    if starts_with(&chars_of(n.as_str()), &chars_of(".")) {
                        return false;
                    }
                },
                None => {},
            }
        }
        let pc = chars_of(path_text);
        let mut i: usize = 0;
        while i < self.exclude_patterns.len()
            invariant
                i <= self.exclude_patterns@.len(),
                pc@ == path_text@,
                forall|k: int| 0 <= k < i ==> !spec_contains(path_text@, #[trigger] strs(self.exclude_patterns@)[k]),
            decreases self.exclude_patterns@.len() - i,
        {
            if find(&pc, &chars_of(self.exclude_patterns[i].as_str())).is_some() {
                assert(spec_contains(path_text@, strs(self.exclude_patterns@)[i as int]));
                return false;
            }
            i = i + 1;
        }
        true
    }
}

} // verus!
