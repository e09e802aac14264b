//! Content coverage: documents counted by ranges of word counts.

use vstd::prelude::*;
use crate::text::{chars_of, owned, spec_word_count, word_count};

verus! {

/// A range of word counts; `max_words` of `None` has no upper bound.
#[derive(Debug, Clone)]
pub struct CoverageRange {
    pub name: String,
    pub min_words: usize,
    pub max_words: Option<usize>,
    pub count: usize,
    pub emoji: String,
}

/// Whether a word count falls in the range.
pub open spec fn range_contains(min: usize, max: Option<usize>, words: usize) -> bool {
    words >= min && match max {
        Some(m) => words <= m,
        None => true,
    }
}

impl CoverageRange {
    pub fn new(name: &str, min: usize, max: Option<usize>, emoji: &str) -> (r: CoverageRange)
        ensures
            r.name@ == name@,
            r.min_words == min,
            r.max_words == max,
            r.count == 0,
            r.emoji@ == emoji@,
    {
        CoverageRange { name: owned(name), min_words: min, max_words: max, count: 0, emoji: owned(emoji) }
    }

    pub fn contains(&self, words: usize) -> (r: bool)
        ensures
            r == range_contains(self.min_words, self.max_words, words),
    {
        words >= self.min_words && match self.max_words {
            Some(m) => words <= m,
            None => true,
        }
    }
}

/// Outcome of a coverage analysis.
#[derive(Debug, Clone)]
pub struct CoverageResult {
    pub ranges: Vec<CoverageRange>,
    pub total_documents: usize,
    pub total_words: usize,
    pub avg_words: usize,
}

/// The bounds of the default ranges, in order.
pub open spec fn default_bounds() -> Seq<(usize, Option<usize>)> {
    seq![
        (0usize, Some(0usize)), (1usize, Some(50usize)), (51usize, Some(100usize)),
        (101usize, Some(200usize)), (201usize, Some(300usize)), (301usize, Some(500usize)),
        (501usize, Some(1000usize)), (1001usize, None::<usize>),
    ]
}

/// Index of the first range that holds `words`.
pub open spec fn first_range(rs: Seq<CoverageRange>, words: usize) -> Option<int>
    decreases rs.len(),
{
    if rs.len() == 0 {
        None
    } else {
        match first_range(rs.drop_last(), words) {
            Some(k) => Some(k),
            None => if range_contains(rs.last().min_words, rs.last().max_words, words) {
                Some(rs.len() - 1)
            } else {
                None
            },
        }
    }
}

/// Ranges with the same bounds, position by position.
pub open spec fn same_bounds(a: Seq<CoverageRange>, b: Seq<CoverageRange>) -> bool {
    &&& a.len() == b.len()
    &&& forall|j: int| 0 <= j < a.len() ==> (#[trigger] a[j]).min_words == b[j].min_words && a[j].max_words == b[j].max_words
}

proof fn lemma_first_range_bounds(a: Seq<CoverageRange>, b: Seq<CoverageRange>, words: usize)
    requires
        same_bounds(a, b),
    ensures
        first_range(a, words) == first_range(b, words),
    decreases a.len(),
{
    if a.len() > 0 {
        assert(a.last().min_words == b.last().min_words && a.last().max_words == b.last().max_words);
        lemma_first_range_bounds(a.drop_last(), b.drop_last(), words);
    }
}

/// The names of the default ranges, in order.
pub open spec fn default_names() -> Seq<Seq<char>> {
    seq!["Vacío"@, "Crítico"@, "Bajo"@, "Mínimo"@, "Aceptable"@, "Bueno"@, "Completo"@, "Extenso"@]
}

/// How many of the documents fall, by word count, first in the `j`-th range.
pub open spec fn range_count(rs: Seq<CoverageRange>, docs: Seq<String>, j: int) -> nat
    decreases docs.len(),
{
    if docs.len() == 0 {
        0
    } else {
        range_count(rs, docs.drop_last(), j)
            + if first_range(rs, spec_word_count(docs.last()@, false) as usize) == Some(j) { 1nat } else { 0nat }
    }
}

proof fn lemma_range_count_bounds(a: Seq<CoverageRange>, b: Seq<CoverageRange>, docs: Seq<String>, j: int)
    requires
        same_bounds(a, b),
    ensures
        range_count(a, docs, j) == range_count(b, docs, j),
    decreases docs.len(),
{
    if docs.len() > 0 {
        lemma_range_count_bounds(a, b, docs.drop_last(), j);
        lemma_first_range_bounds(a, b, spec_word_count(docs.last()@, false) as usize);
    }
}

proof fn lemma_first_range(rs: Seq<CoverageRange>, words: usize, i: int)
    requires
        0 <= i <= rs.len(),
        forall|j: int| 0 <= j < i ==> !range_contains(#[trigger] rs[j].min_words, rs[j].max_words, words),
    ensures
        first_range(rs.subrange(0, i), words) is None,
        i < rs.len() && range_contains(rs[i].min_words, rs[i].max_words, words)
            ==> first_range(rs, words) == Some(i),
        i == rs.len() ==> first_range(rs, words) is None,
    decreases rs.len() - i,
{
    assert(rs.subrange(0, rs.len() as int) =~= rs);
    lemma_prefix_none(rs, words, i);
    if i < rs.len() && range_contains(rs[i].min_words, rs[i].max_words, words) {
        lemma_first_at(rs, words, i, rs.len() as int);
    }
}

proof fn lemma_prefix_none(rs: Seq<CoverageRange>, words: usize, i: int)
    requires
        0 <= i <= rs.len(),
        forall|j: int| 0 <= j < i ==> !range_contains(#[trigger] rs[j].min_words, rs[j].max_words, words),
    ensures
        first_range(rs.subrange(0, i), words) is None,
    decreases i,
{
    if i > 0 {
        lemma_prefix_none(rs, words, i - 1);
        assert(rs.subrange(0, i).drop_last() =~= rs.subrange(0, i - 1));
    }
}

proof fn lemma_first_at(rs: Seq<CoverageRange>, words: usize, i: int, n: int)
    requires
        0 <= i < n <= rs.len(),
        first_range(rs.subrange(0, i), words) is None,
        range_contains(rs[i].min_words, rs[i].max_words, words),
    ensures
        first_range(rs.subrange(0, n), words) == Some(i),
    decreases n - i,
{
    if n == i + 1 {
        assert(rs.subrange(0, n).drop_last() =~= rs.subrange(0, i));
    } else {
        lemma_first_at(rs, words, i, n - 1);
        assert(rs.subrange(0, n).drop_last() =~= rs.subrange(0, n - 1));
    }
    if n == rs.len() {
        assert(rs.subrange(0, n) =~= rs);
    }
}

impl CoverageResult {
    /// The eight default ranges (empty, critical, low, minimal, acceptable,
    /// good, complete, extensive), all at zero.
    pub fn new() -> (r: CoverageResult)
        ensures
            r.ranges@.len() == 8,
            forall|i: int| 0 <= i < 8 ==> (#[trigger] r.ranges@[i]).min_words == default_bounds()[i].0
                && r.ranges@[i].max_words == default_bounds()[i].1 && r.ranges@[i].count == 0,
            r.ranges@[0].name@ == "Vacío"@ && r.ranges@[1].name@ == "Crítico"@
                && r.ranges@[2].name@ == "Bajo"@ && r.ranges@[3].name@ == "Mínimo"@
                && r.ranges@[4].name@ == "Aceptable"@ && r.ranges@[5].name@ == "Bueno"@
                && r.ranges@[6].name@ == "Completo"@ && r.ranges@[7].name@ == "Extenso"@,
            r.total_documents == 0,
            r.total_words == 0,
            r.avg_words == 0,
    {
        let ranges = vec![
            CoverageRange::new("Vacío", 0, Some(0), "⬛"),
            CoverageRange::new("Crítico", 1, Some(50), "🟥"),
            CoverageRange::new("Bajo", 51, Some(100), "🟧"),
            CoverageRange::new("Mínimo", 101, Some(200), "🟨"),
            CoverageRange::new("Aceptable", 201, Some(300), "🟩"),
            CoverageRange::new("Bueno", 301, Some(500), "🟦"),
            CoverageRange::new("Completo", 501, Some(1000), "🟪"),
            CoverageRange::new("Extenso", 1001, None, "⬜"),
        ];
        CoverageResult { ranges, total_documents: 0, total_words: 0, avg_words: 0 }
    }

    /// Counts a document: totals grow, the first range holding its word count
    /// counts one more, and the average is recomputed.
    pub fn add_document(&mut self, words: usize)
        requires
            old(self).total_documents < usize::MAX,
            old(self).total_words + words <= usize::MAX,
            forall|i: int| 0 <= i < old(self).ranges@.len() ==> (#[trigger] old(self).ranges@[i]).count < usize::MAX,
        ensures
            final(self).total_documents == old(self).total_documents + 1,
            final(self).total_words == old(self).total_words + words,
            final(self).avg_words == final(self).total_words / final(self).total_documents,
            final(self).ranges@.len() == old(self).ranges@.len(),
            forall|i: int| 0 <= i < final(self).ranges@.len() ==> {
                let a = #[trigger] final(self).ranges@[i];
                let b = old(self).ranges@[i];
                &&& a.name == b.name && a.emoji == b.emoji
                &&& a.min_words == b.min_words && a.max_words == b.max_words
                &&& a.count == (if first_range(old(self).ranges@, words) == Some(i) { b.count + 1 } else { b.count as int })
            },
    {
        self.total_documents = self.total_documents + 1;
        self.total_words = self.total_words + words;
        let ghost rs = self.ranges@;
        let n = self.ranges.len();
        let mut i: usize = 0;
        let mut found = false;
        while i < n && !found
            invariant
                n == rs.len(),
                i <= n,
                self.ranges@ == rs,
                found ==> i < n && range_contains(rs[i as int].min_words, rs[i as int].max_words, words),
                forall|j: int| 0 <= j < i && (j != i || !found) ==> !range_contains(#[trigger] rs[j].min_words, rs[j].max_words, words),
            decreases n - i, (if found { 0int } else { 1int }),
        {
            if self.ranges[i].contains(words) {
                found = true;
            } else {
                i = i + 1;
            }
        }
        proof {
            lemma_first_range(rs, words, i as int);
        }
        if found {
            let old_r = &self.ranges[i];
            let r = CoverageRange {
                name: old_r.name.clone(),
                min_words: old_r.min_words,
                max_words: old_r.max_words,
                count: old_r.count + 1,
                emoji: old_r.emoji.clone(),
            };
            self.ranges.set(i, r);
        }
        self.avg_words = self.total_words / self.total_documents;
    }
}

impl Default for CoverageResult {
    fn default() -> (r: CoverageResult)
        ensures
            r.ranges@.len() == 8,
            forall|i: int| 0 <= i < 8 ==> (#[trigger] r.ranges@[i]).min_words == default_bounds()[i].0
                && r.ranges@[i].max_words == default_bounds()[i].1 && r.ranges@[i].count == 0
                && r.ranges@[i].name@ == default_names()[i],
            r.total_documents == 0,
            r.total_words == 0,
            r.avg_words == 0,
    {
        CoverageResult::new()
    }
}

/// Options of the coverage command.
#[derive(Debug, Clone)]
pub struct CoverageCommand {
    pub path: Option<String>,
    pub module: Option<String>,
    pub json: bool,
}

/// Sum of the word counts of the documents.
pub open spec fn sum_words(docs: Seq<String>) -> nat
    decreases docs.len(),
{
    if docs.len() == 0 { 0 } else { sum_words(docs.drop_last()) + spec_word_count(docs.last()@, false) }
}

impl CoverageCommand {
    /// Coverage of the given document contents: each is counted by its
    /// number of whitespace-separated words.
    pub fn run(&self, contents: &Vec<String>) -> (r: CoverageResult)
        requires
            sum_words(contents@) <= usize::MAX,
            contents@.len() < usize::MAX,
        ensures
            r.ranges@.len() == 8,
            forall|j: int| 0 <= j < 8 ==> {
                let g = #[trigger] r.ranges@[j];
                &&& g.min_words == default_bounds()[j].0 && g.max_words == default_bounds()[j].1
                &&& g.name@ == default_names()[j]
                &&& g.count == range_count(r.ranges@, contents@, j)
            },
            r.total_documents == contents@.len(),
            r.total_words == sum_words(contents@),
            r.avg_words == if contents@.len() > 0 { sum_words(contents@) / contents@.len() } else { 0 },
    {
        let mut result = CoverageResult::new();
        let mut i: usize = 0;
        while i < contents.len()
            invariant
                i <= contents@.len(),
                contents@.len() < usize::MAX,
                sum_words(contents@) <= usize::MAX,
                result.ranges@.len() == 8,
                result.total_documents == i,
                result.total_words == sum_words(contents@.subrange(0, i as int)),
                result.avg_words == if i > 0 { result.total_words / i } else { 0 },
                forall|j: int| 0 <= j < 8 ==> (#[trigger] result.ranges@[j]).count <= i,
                forall|j: int| 0 <= j < 8 ==> {
                    let g = #[trigger] result.ranges@[j];
                    &&& g.min_words == default_bounds()[j].0 && g.max_words == default_bounds()[j].1
                    &&& g.name@ == default_names()[j]
                    &&& g.count == range_count(result.ranges@, contents@.subrange(0, i as int), j)
                },
            decreases contents@.len() - i,
        {
            proof {
                let sub = contents@.subrange(0, i + 1);
                assert(sub.drop_last() =~= contents@.subrange(0, i as int));
                lemma_sum_prefix(contents@, i as int);
            }
            let ghost r0 = result.ranges@;
            let w = word_count(&chars_of(contents[i].as_str()), false);
            result.add_document(w);
            proof {
                let sub = contents@.subrange(0, i + 1);
                assert(sub.last() == contents@[i as int]);
                assert(same_bounds(result.ranges@, r0));
                assert forall|j: int| 0 <= j < 8 implies
                    (#[trigger] result.ranges@[j]).count == range_count(result.ranges@, sub, j) by {
                    lemma_range_count_bounds(result.ranges@, r0, contents@.subrange(0, i as int), j);
                    lemma_first_range_bounds(result.ranges@, r0, w);
                }
            }
            i = i + 1;
        }
        assert(contents@.subrange(0, contents@.len() as int) =~= contents@);
        result
    }
}

proof fn lemma_sum_prefix(docs: Seq<String>, i: int)
    requires
        0 <= i < docs.len(),
    ensures
        sum_words(docs.subrange(0, i + 1)) <= sum_words(docs),
    decreases docs.len(),
{
    if i + 1 < docs.len() {
        lemma_sum_prefix(docs.drop_last(), i);
        assert(docs.drop_last().subrange(0, i + 1) =~= docs.subrange(0, i + 1));
    } else {
        assert(docs.subrange(0, i + 1) =~= docs);
    }
}

} // verus!
