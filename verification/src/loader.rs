//! Quick statistics over the documents of a project.

use vstd::prelude::*;
use vstd::utf8::encode_utf8;
use crate::text::{chars_of, spec_starts_with, spec_words, starts_with, strs, words};

verus! {

/// Counts over the documents of a project.
#[derive(Debug, Clone)]
pub struct QuickStats {
    pub file_count: usize,
    pub total_words: usize,
    pub total_bytes: usize,
    pub with_frontmatter: usize,
}

impl Default for QuickStats {
    fn default() -> (s: QuickStats)
        ensures
            s.file_count == 0 && s.total_words == 0 && s.total_bytes == 0 && s.with_frontmatter == 0,
    {
        QuickStats { file_count: 0, total_words: 0, total_bytes: 0, with_frontmatter: 0 }
    }
}

impl QuickStats {
    /// Words per file, rounded down (0 without files).
    pub fn avg_words_per_file(&self) -> (r: usize)
        ensures
            r == if self.file_count == 0 { 0 } else { self.total_words / self.file_count },
    {
        if self.file_count == 0 { 0 } else { self.total_words / self.file_count }
    }
}

/// `n`, or `usize::MAX` when larger.
pub open spec fn clamp(n: nat) -> nat {
    if n > usize::MAX { usize::MAX as nat } else { n }
}

/// (words, UTF-8 bytes, files opening a front matter) over the readable
/// files.
pub open spec fn quick_totals(fs: Seq<Option<Seq<char>>>) -> (nat, nat, nat)
    decreases fs.len(),
{
    if fs.len() == 0 {
        (0, 0, 0)
    } else {
        let p = quick_totals(fs.drop_last());
        match fs.last() {
            Some(c) => (p.0 + spec_words(c).len(), p.1 + encode_utf8(c).len(),
                p.2 + if spec_starts_with(c, "---"@) { 1nat } else { 0nat }),
            None => p,
        }
    }
}

/// The views of optional texts.
pub open spec fn opt_texts(v: Seq<Option<String>>) -> Seq<Option<Seq<char>>> {
    v.map_values(|o: Option<String>| match o { Some(s) => Some(s@), None => None })
}

/// The counts of the files, each given by its content when it could be
/// read: every file counts; words, bytes and front matters come from the
/// readable ones (sums saturate at `usize::MAX`).
pub fn quick_stats(files: &Vec<Option<String>>) -> (s: QuickStats)
    ensures
        s.file_count == files@.len(),
        s.total_words == clamp(quick_totals(opt_texts(files@)).0),
        s.total_bytes == clamp(quick_totals(opt_texts(files@)).1),
        s.with_frontmatter == quick_totals(opt_texts(files@)).2,
{
    let ghost fv = opt_texts(files@);
    let mut s = QuickStats { file_count: files.len(), total_words: 0, total_bytes: 0, with_frontmatter: 0 };
    let dash = chars_of("---");
    let mut i: usize = 0;
    assert(fv.subrange(0, 0) =~= Seq::<Option<Seq<char>>>::empty());
    while i < files.len()
        invariant
            i <= files@.len(),
            fv == opt_texts(files@),
            dash@ == "---"@,
            s.file_count == files@.len(),
            s.total_words == clamp(quick_totals(fv.subrange(0, i as int)).0),
            s.total_bytes == clamp(quick_totals(fv.subrange(0, i as int)).1),
            s.with_frontmatter == quick_totals(fv.subrange(0, i as int)).2,
            s.with_frontmatter <= i,
        decreases files@.len() - i,
    {
        let ghost sub = fv.subrange(0, i + 1);
        assert(sub.drop_last() =~= fv.subrange(0, i as int));
        match &files[i] {
            Some(c) => {
                let cc = chars_of(c.as_str());
                let w = words(&cc);
                assert(strs(w@).len() == w@.len());
                s.total_words = s.total_words.saturating_add(w.len());
                let b = c.as_str().as_bytes();
                s.total_bytes = s.total_bytes.saturating_add(b.len());
                if starts_with(&cc, &dash) {
                    s.with_frontmatter = s.with_frontmatter + 1;
                }
            },
            None => {},
        }
        i = i + 1;
    }
    assert(fv.subrange(0, files@.len() as int) =~= fv);
    s
}

} // verus!
