//! Text search in the documentation.

use vstd::prelude::*;
use crate::text::{
    chars_of, lines, owned, push_str, slice_to_vec, spec_find, spec_lines, spec_to_lowercase,
    spec_utf8_len, string_of, strs, to_lowercase, utf8_len, views, find, contains_str,
};

verus! {

/// A match found in a line.
#[derive(Debug, Clone)]
pub struct SearchMatch {
    pub file_path: String,
    pub line_number: usize,
    pub line_content: String,
    pub match_start: usize,
    pub match_length: usize,
    pub context_before: Vec<String>,
    pub context_after: Vec<String>,
}

/// The character position where the UTF-8 prefix of `s` is `b` bytes long.
pub open spec fn char_at_byte(s: Seq<char>, b: nat) -> Option<int> {
    if exists|i: int| 0 <= i <= s.len() && spec_utf8_len(#[trigger] s.subrange(0, i)) == b {
        Some(choose|i: int| 0 <= i <= s.len() && spec_utf8_len(#[trigger] s.subrange(0, i)) == b)
    } else {
        None
    }
}

/// The line with the match wrapped in the terminal's bold yellow.
pub open spec fn highlighted(s: Seq<char>, a: int, b: int) -> Seq<char> {
    s.subrange(0, a) + "\x1b[1;33m"@ + s.subrange(a, b) + "\x1b[0m"@ + s.subrange(b, s.len() as int)
}

proof fn lemma_utf8_prefix_mono(s: Seq<char>, i: int, j: int)
    requires
        0 <= i < j <= s.len(),
    ensures
        spec_utf8_len(s.subrange(0, i)) < spec_utf8_len(s.subrange(0, j)),
    decreases j - i,
{
    assert(s.subrange(0, j).drop_last() =~= s.subrange(0, j - 1));
    if i < j - 1 {
        lemma_utf8_prefix_mono(s, i, j - 1);
    }
}

/// Character position of a byte offset that falls on a character boundary.
fn char_index(s: &Vec<char>, b: usize) -> (r: usize)
    requires
        char_at_byte(s@, b as nat) is Some,
    ensures
        r as int == char_at_byte(s@, b as nat)->0,
        r <= s@.len(),
{
    let ghost k = char_at_byte(s@, b as nat)->0;
    let mut i: usize = 0;
    let mut n: usize = 0;
    proof {
        assert(s@.subrange(0, 0) =~= Seq::<char>::empty());
    }
    while n < b
        invariant
            i <= s@.len(),
            n as nat == spec_utf8_len(s@.subrange(0, i as int)),
            0 <= k <= s@.len(),
            spec_utf8_len(s@.subrange(0, k)) == b,
            i <= k,
        decreases k - i,
    {
        proof {
            if i == k {
                assert(false);
            }
            if i + 1 < k {
                lemma_utf8_prefix_mono(s@, i + 1, k);
            }
            assert(s@.subrange(0, i + 1).drop_last() =~= s@.subrange(0, i as int));
        }
        assert(i < k);
        assert(s@.len() == s.len());
        let c = s[i];
        let w: usize = if (c as u32) < 0x80 { 1 } else if (c as u32) < 0x800 { 2 } else if (c as u32) < 0x10000 { 3 } else { 4 };
        n = n + w;
        i = i + 1;
    }
    proof {
        if i < k {
            lemma_utf8_prefix_mono(s@, i as int, k);
        }
    }
    i
}

impl SearchMatch {
    pub fn new(file_path: &str, line_number: usize, line_content: String, match_start: usize, match_length: usize) -> (m: SearchMatch)
        ensures
            m.file_path@ == file_path@,
            m.line_number == line_number,
            m.line_content == line_content,
            m.match_start == match_start,
            m.match_length == match_length,
            m.context_before@.len() == 0,
            m.context_after@.len() == 0,
    {
        SearchMatch {
            file_path: owned(file_path),
            line_number,
            line_content,
            match_start,
            match_length,
            context_before: Vec::new(),
            context_after: Vec::new(),
        }
    }

    /// The line with the matched bytes highlighted; the match must start and
    /// end on character boundaries.
    pub fn highlighted_line(&self) -> (s: String)
        requires
            self.match_start + self.match_length <= usize::MAX,
            char_at_byte(self.line_content@, self.match_start as nat) is Some,
            char_at_byte(self.line_content@, (self.match_start + self.match_length) as nat) is Some,
            char_at_byte(self.line_content@, self.match_start as nat)->0
                <= char_at_byte(self.line_content@, (self.match_start + self.match_length) as nat)->0,
        ensures
            s@ == highlighted(self.line_content@,
                char_at_byte(self.line_content@, self.match_start as nat)->0,
                char_at_byte(self.line_content@, (self.match_start + self.match_length) as nat)->0),
    {
        let v = chars_of(self.line_content.as_str());
        let a = char_index(&v, self.match_start);
        let b = char_index(&v, self.match_start + self.match_length);
        let mut out = string_of(&slice_to_vec(&v, 0, a));
        push_str(&mut out, "\x1b[1;33m");
        push_str(&mut out, string_of(&slice_to_vec(&v, a, b)).as_str());
        push_str(&mut out, "\x1b[0m");
        push_str(&mut out, string_of(&slice_to_vec(&v, b, v.len())).as_str());
        out
    }
}

/// Outcome of a search.
#[derive(Debug, Clone)]
pub struct SearchResults {
    pub query: String,
    pub matches: Vec<SearchMatch>,
    pub files_searched: usize,
    pub total_lines_searched: usize,
}

/// The paths, each once, in first-appearance order.
pub open spec fn distinct_paths(ms: Seq<SearchMatch>) -> Seq<Seq<char>>
    decreases ms.len(),
{
    if ms.len() == 0 {
        Seq::empty()
    } else {
        let p = distinct_paths(ms.drop_last());
        if p.contains(ms.last().file_path@) { p } else { p.push(ms.last().file_path@) }
    }
}

impl SearchResults {
    pub fn new(query: &str) -> (r: SearchResults)
        ensures
            r.query@ == query@,
            r.matches@.len() == 0,
            r.files_searched == 0,
            r.total_lines_searched == 0,
    {
        SearchResults { query: owned(query), matches: Vec::new(), files_searched: 0, total_lines_searched: 0 }
    }

    pub fn match_count(&self) -> (n: usize)
        ensures
            n == self.matches@.len(),
    {
        self.matches.len()
    }

    /// Number of distinct files with a match.
    pub fn files_with_matches(&self) -> (n: usize)
        ensures
            n == distinct_paths(self.matches@).len(),
    {
        let mut seen: Vec<String> = Vec::new();
        let mut i: usize = 0;
        while i < self.matches.len()
            invariant
                i <= self.matches@.len(),
                strs(seen@) == distinct_paths(self.matches@.subrange(0, i as int)),
            decreases self.matches@.len() - i,
        {
            let ghost sub = self.matches@.subrange(0, i + 1);
            assert(sub.drop_last() =~= self.matches@.subrange(0, i as int));
            if !contains_str(&seen, self.matches[i].file_path.as_str()) {
                let ghost s0 = strs(seen@);
                seen.push(self.matches[i].file_path.clone());
                assert(strs(seen@) =~= s0.push(self.matches@[i as int].file_path@));
            }
            i = i + 1;
        }
        assert(self.matches@.subrange(0, self.matches@.len() as int) =~= self.matches@);
        seen.len()
    }
}

/// Options of the search command.
#[derive(Debug, Clone)]
pub struct SearchCommand {
    pub pattern: String,
    pub path: Option<String>,
    pub regex: bool,
    pub ignore_case: bool,
    pub yaml: bool,
    pub content_only: bool,
    pub context: usize,
    pub max_results: Option<usize>,
}

/// A match as (line number, line, byte start, byte length).
pub type MatchView = (nat, Seq<char>, nat, nat);

/// The matches in the lines (at most one per line, the first occurrence):
/// lower-cased on both sides when the case is ignored; the search stops
/// once the maximum is reached.
pub open spec fn spec_search(ignore_case: bool, max: Option<usize>, pattern: Seq<char>, ls: Seq<Seq<char>>) -> Seq<MatchView>
    decreases ls.len(),
{
    if ls.len() == 0 {
        Seq::empty()
    } else {
        let p = spec_search(ignore_case, max, pattern, ls.drop_last());
        let full = match max { Some(m) => p.len() >= m && p.len() > 0, None => false };
        let pat = if ignore_case { spec_to_lowercase(pattern) } else { pattern };
        let line = ls.last();
        let hay = if ignore_case { spec_to_lowercase(line) } else { line };
        if full {
            p
        } else {
            match spec_find(hay, pat) {
                Some(k) => p.push((ls.len(), line, utf8_len_sat(hay.subrange(0, k)), utf8_len_sat(pat))),
                None => p,
            }
        }
    }
}

/// UTF-8 byte count of a text, saturating at `usize::MAX`.
pub open spec fn utf8_len_sat(s: Seq<char>) -> nat {
    if spec_utf8_len(s) > usize::MAX { usize::MAX as nat } else { spec_utf8_len(s) }
}

/// The views of matches.
pub open spec fn matches_view(v: Seq<SearchMatch>) -> Seq<MatchView> {
    v.map_values(|m: SearchMatch| (m.line_number as nat, m.line_content@, m.match_start as nat, m.match_length as nat))
}

impl SearchCommand {
    /// The matches of the pattern in a document.
    pub fn search_in_content(&self, content: &str, file_path: &str) -> (r: Vec<SearchMatch>)
        requires
            spec_lines(content@).len() < usize::MAX,
        ensures
            matches_view(r@) == spec_search(self.ignore_case, self.max_results, self.pattern@, spec_lines(content@)),
            forall|k: int| 0 <= k < r@.len() ==> (#[trigger] r@[k]).file_path@ == file_path@,
    {
        let ls = lines(&chars_of(content));
        let ghost lv = views(ls@);
        let pat = if self.ignore_case { to_lowercase(self.pattern.as_str()) } else { self.pattern.clone() };
        let pv = chars_of(pat.as_str());
        let plen = utf8_len(&pv);
        let mut r: Vec<SearchMatch> = Vec::new();
        let mut i: usize = 0;
        let mut stopped = false;
        while i < ls.len()
            invariant
                i <= ls@.len(),
                lv == views(ls@),
                lv == spec_lines(content@),
                lv.len() < usize::MAX,
                pv@ == (if self.ignore_case { spec_to_lowercase(self.pattern@) } else { self.pattern@ }),
                plen as nat == utf8_len_sat(pv@),
                matches_view(r@) == spec_search(self.ignore_case, self.max_results, self.pattern@, lv.subrange(0, i as int)),
                stopped == (match self.max_results { Some(m) => r@.len() >= m && r@.len() > 0, None => false }),
                forall|k: int| 0 <= k < r@.len() ==> (#[trigger] r@[k]).file_path@ == file_path@,
                r@.len() <= i,
            decreases ls@.len() - i,
        {
            let ghost sub = lv.subrange(0, i + 1);
            assert(sub.drop_last() =~= lv.subrange(0, i as int));
            assert(sub.last() == ls@[i as int]@);
            if !stopped {
                let line = string_of(ls[i].as_slice());
                let hay = if self.ignore_case { to_lowercase(line.as_str()) } else { line.clone() };
                let hv = chars_of(hay.as_str());
                match find(&hv, &pv) {
                    Some(k) => {
                        proof {
                            crate::text::lemma_find_from(hv@, pv@, 0);
                        }
                        let start = utf8_len(&slice_to_vec(&hv, 0, k));
                        let ghost r0 = matches_view(r@);
                        r.push(SearchMatch::new(file_path, i + 1, line, start, plen));
                        assert(matches_view(r@) =~= r0.push(matches_view(r@).last()));
                        match self.max_results {
                            Some(m) => {
                                if r.len() >= m {
                                    stopped = true;
                                }
                            },
                            None => {},
                        }
                    },
                    None => {},
                }
            }
            i = i + 1;
        }
        assert(lv.subrange(0, ls@.len() as int) =~= lv);
        r
    }
}

/// A match with its file: (file, line number, line, byte start, byte length).
pub type FoundView = (Seq<char>, MatchView);

/// The views of matches with their files.
pub open spec fn found_view(v: Seq<SearchMatch>) -> Seq<FoundView> {
    v.map_values(|m: SearchMatch| (m.file_path@, (m.line_number as nat, m.line_content@, m.match_start as nat, m.match_length as nat)))
}

/// The matches of one document with its file.
pub open spec fn file_matches(cmd: SearchCommand, path: Seq<char>, content: Seq<char>) -> Seq<FoundView> {
    spec_search(cmd.ignore_case, cmd.max_results, cmd.pattern@, spec_lines(content)).map_values(|m: MatchView| (path, m))
}

/// Adding the first `k` of `new` to `acc`, stopping right after the match
/// that brings the total to the maximum: the matches and whether it stopped.
pub open spec fn add_capped(acc: Seq<FoundView>, new: Seq<FoundView>, max: Option<usize>, k: nat) -> (Seq<FoundView>, bool)
    decreases k,
{
    if k == 0 || k > new.len() {
        (acc, false)
    } else {
        let (a, stopped) = add_capped(acc, new, max, (k - 1) as nat);
        if stopped {
            (a, true)
        } else {
            let a2 = a.push(new[k - 1]);
            (a2, match max { Some(m) => a2.len() >= m, None => false })
        }
    }
}

/// `a + b`, saturating at `usize::MAX`.
pub open spec fn sat_add(a: nat, b: nat) -> nat {
    if a + b > usize::MAX { usize::MAX as nat } else { a + b }
}

/// The search over the first `n` files, each (path, text when readable):
/// the matches so far, the lines searched, and whether the maximum was
/// reached (after which nothing more is searched).
pub open spec fn search_files(cmd: SearchCommand, files: Seq<(Seq<char>, Option<Seq<char>>)>, n: nat) -> (Seq<FoundView>, nat, bool)
    decreases n,
{
    if n == 0 || n > files.len() {
        (Seq::empty(), 0, false)
    } else {
        let (ms, lines_total, stopped) = search_files(cmd, files, (n - 1) as nat);
        if stopped {
            (ms, lines_total, true)
        } else {
            match files[n - 1].1 {
                None => (ms, lines_total, false),
                Some(c) => {
                    let new = file_matches(cmd, files[n - 1].0, c);
                    let (ms2, st) = add_capped(ms, new, cmd.max_results, new.len());
                    (ms2, sat_add(lines_total, spec_lines(c).len()), st)
                },
            }
        }
    }
}

/// The views of files given as (path, text when readable).
pub open spec fn files_view(v: Seq<(String, Option<String>)>) -> Seq<(Seq<char>, Option<Seq<char>>)> {
    v.map_values(|x: (String, Option<String>)| (x.0@, match x.1 { Some(c) => Some(c@), None => None }))
}

impl SearchCommand {
    /// Searches the files, each given as (path, text when it could be read):
    /// the matches in file order, up to the maximum number of results, the
    /// number of files, and the lines searched (saturating at `usize::MAX`).
    pub fn run(&self, files: &Vec<(String, Option<String>)>) -> (r: SearchResults)
        requires
            forall|i: int| 0 <= i < files@.len() ==> ((#[trigger] files@[i]).1 matches Some(c) ==> spec_lines(c@).len() < usize::MAX),
        ensures
            r.query@ == self.pattern@,
            r.files_searched == files@.len(),
            found_view(r.matches@) == search_files(*self, files_view(files@), files@.len() as nat).0,
            r.total_lines_searched as nat == search_files(*self, files_view(files@), files@.len() as nat).1,
    {
        let ghost fv = files_view(files@);
        let mut results = SearchResults::new(self.pattern.as_str());
        results.files_searched = files.len();
        let mut stopped = false;
        let mut i: usize = 0;
        assert(found_view(results.matches@) =~= Seq::<FoundView>::empty());
        while i < files.len()
            invariant
                i <= files@.len(),
                fv == files_view(files@),
                forall|j: int| 0 <= j < files@.len() ==> ((#[trigger] files@[j]).1 matches Some(c) ==> spec_lines(c@).len() < usize::MAX),
                results.query@ == self.pattern@,
                results.files_searched == files@.len(),
                search_files(*self, fv, i as nat) == (found_view(results.matches@), results.total_lines_searched as nat, stopped),
            decreases files@.len() - i,
        {
            assert(fv[i as int] == (files@[i as int].0@, match files@[i as int].1 { Some(c) => Some(c@), None => None::<Seq<char>> }));
            if !stopped {
                match &files[i].1 {
                    None => {},
                    Some(c) => {
                        let n_lines = crate::text::lines(&chars_of(c.as_str())).len();
                        results.total_lines_searched = results.total_lines_searched.saturating_add(n_lines);
                        let ms = self.search_in_content(c.as_str(), files[i].0.as_str());
                        let ghost new = file_matches(*self, files@[i as int].0@, c@);
                        assert(found_view(ms@) =~= new) by {
                            assert forall|k: int| 0 <= k < ms@.len() implies found_view(ms@)[k] == new[k] by {
                                assert(ms@[k].file_path@ == files@[i as int].0@);
                            }
                        }
                        let ghost base = found_view(results.matches@);
                        let ghost tl = results.total_lines_searched;
                        assert(tl as nat == sat_add(search_files(*self, fv, i as nat).1, spec_lines(c@).len()));
                        let mut k: usize = 0;
                        while k < ms.len() && !stopped
                            invariant
                                k <= ms@.len(),
                                found_view(ms@) == new,
                                add_capped(base, new, self.max_results, k as nat) == (found_view(results.matches@), stopped),
                                results.query@ == self.pattern@,
                                results.files_searched == files@.len(),
                                results.total_lines_searched == tl,
                            decreases ms@.len() - k,
                        {
                            let ghost before = found_view(results.matches@);
                            results.matches.push(copy_match(&ms[k]));
                            assert(found_view(results.matches@) =~= before.push(new[k as int]));
                            stopped = match self.max_results {
                                Some(m) => results.matches.len() >= m,
                                None => false,
                            };
                            k = k + 1;
                        }
                        proof {
                            lemma_capped_stays(base, new, self.max_results, k as nat, new.len());
                        }
                    },
                }
            }
            i = i + 1;
        }
        results
    }
}

/// Once the maximum is reached, adding more changes nothing.
proof fn lemma_capped_stays(acc: Seq<FoundView>, new: Seq<FoundView>, max: Option<usize>, k: nat, n: nat)
    requires
        k <= n <= new.len(),
        add_capped(acc, new, max, k).1 || k == n,
    ensures
        add_capped(acc, new, max, n) == add_capped(acc, new, max, k),
    decreases n - k,
{
    if k < n {
        lemma_capped_stays(acc, new, max, k, (n - 1) as nat);
    }
}

/// A copy of a match.
fn copy_match(m: &SearchMatch) -> (c: SearchMatch)
    ensures
        c.file_path@ == m.file_path@,
        c.line_number == m.line_number,
        c.line_content@ == m.line_content@,
        c.match_start == m.match_start,
        c.match_length == m.match_length,
        c.context_before@ == m.context_before@,
        c.context_after@ == m.context_after@,
{
    SearchMatch {
        file_path: owned(m.file_path.as_str()),
        line_number: m.line_number,
        line_content: owned(m.line_content.as_str()),
        match_start: m.match_start,
        match_length: m.match_length,
        context_before: crate::text::clone_strings(&m.context_before),
        context_after: crate::text::clone_strings(&m.context_after),
    }
}

/// The text a search compares: the text itself, or lower-cased when the
/// case is ignored.
pub open spec fn compared(ignore_case: bool, t: Seq<char>) -> Seq<char> {
    if ignore_case { spec_to_lowercase(t) } else { t }
}

/// What the matches of a search with no maximum are, with `key` giving the
/// texts compared: each match names a line whose compared text contains
/// the compared pattern, at its first occurrence, lines in increasing
/// order, and every such line has its match.
pub open spec fn search_exact(ignore_case: bool, pattern: Seq<char>, ls: Seq<Seq<char>>, r: Seq<MatchView>) -> bool {
    let pat = compared(ignore_case, pattern);
    &&& forall|j: int| 0 <= j < r.len() ==> {
        let m = #[trigger] r[j];
        &&& 1 <= m.0 <= ls.len()
        &&& m.1 == ls[m.0 - 1]
        &&& spec_find(compared(ignore_case, m.1), pat) is Some
        &&& m.2 == utf8_len_sat(compared(ignore_case, m.1).subrange(0, spec_find(compared(ignore_case, m.1), pat).unwrap()))
        &&& m.3 == utf8_len_sat(pat)
    }
    &&& forall|j1: int, j2: int| 0 <= j1 < j2 < r.len() ==> (#[trigger] r[j1]).0 < (#[trigger] r[j2]).0
    &&& forall|i: int| 0 <= i < ls.len() && spec_find(compared(ignore_case, #[trigger] ls[i]), pat) is Some
        ==> exists|j: int| 0 <= j < r.len() && (#[trigger] r[j]).0 == i + 1
}

proof fn lemma_search_exact(ignore_case: bool, pattern: Seq<char>, ls: Seq<Seq<char>>)
    ensures
        search_exact(ignore_case, pattern, ls, spec_search(ignore_case, None, pattern, ls)),
    decreases ls.len(),
{
    let r = spec_search(ignore_case, None, pattern, ls);
    let pat = compared(ignore_case, pattern);
    if ls.len() > 0 {
        let d = ls.drop_last();
        lemma_search_exact(ignore_case, pattern, d);
        let p = spec_search(ignore_case, None, pattern, d);
        let n = ls.len() as int;
        assert forall|j: int| 0 <= j < p.len() implies {
            let m = #[trigger] p[j];
            &&& 1 <= m.0 <= n - 1
            &&& m.1 == ls[m.0 - 1]
        } by {
            let m = p[j];
            assert(d[m.0 - 1] == ls[m.0 - 1]);
        }
        if r != p {
            assert(spec_find(compared(ignore_case, ls.last()), pat) is Some);
            assert(r.len() == p.len() + 1);
            assert forall|j: int| 0 <= j < p.len() implies r[j] == #[trigger] p[j] by {}
            assert(r[p.len() as int].0 == n);
            assert forall|j1: int, j2: int| 0 <= j1 < j2 < r.len() implies (#[trigger] r[j1]).0 < (#[trigger] r[j2]).0 by {
                if j2 < p.len() {
                    assert(r[j1] == p[j1] && r[j2] == p[j2]);
                } else {
                    assert(r[j1] == p[j1]);
                }
            }
            assert forall|i: int| 0 <= i < ls.len() && spec_find(compared(ignore_case, #[trigger] ls[i]), pat) is Some
                implies exists|j: int| 0 <= j < r.len() && (#[trigger] r[j]).0 == i + 1 by {
                if i < n - 1 {
                    assert(d[i] == ls[i]);
                    let j = choose|j: int| 0 <= j < p.len() && (#[trigger] p[j]).0 == i + 1;
                    assert(r[j] == p[j]);
                } else {
                    assert(r[p.len() as int].0 == i + 1);
                }
            }
        } else {
            assert(spec_find(compared(ignore_case, ls.last()), pat) is None);
            assert forall|i: int| 0 <= i < ls.len() && spec_find(compared(ignore_case, #[trigger] ls[i]), pat) is Some
                implies exists|j: int| 0 <= j < r.len() && (#[trigger] r[j]).0 == i + 1 by {
                assert(i < n - 1);
                assert(d[i] == ls[i]);
            }
        }
    }
}

/// A case-sensitive search compares the lines and the pattern as written:
/// a line has a match exactly when it contains the pattern; the match
/// gives the line, its number (from 1) and the byte offset and length of
/// the first occurrence; the matches come in line order.
pub proof fn law_search_case_sensitive(pattern: Seq<char>, content: Seq<char>)
    ensures
        ({
            let ls = spec_lines(content);
            let r = spec_search(false, None, pattern, ls);
            &&& forall|j: int| 0 <= j < r.len() ==> {
                let m = #[trigger] r[j];
                &&& 1 <= m.0 <= ls.len()
                &&& m.1 == ls[m.0 - 1]
                &&& spec_find(m.1, pattern) is Some
                &&& m.2 == spec_utf8_len(m.1.subrange(0, spec_find(m.1, pattern).unwrap())) || m.2 == usize::MAX
                &&& m.3 == spec_utf8_len(pattern) || m.3 == usize::MAX
            }
            &&& forall|j1: int, j2: int| 0 <= j1 < j2 < r.len() ==> (#[trigger] r[j1]).0 < (#[trigger] r[j2]).0
            &&& forall|i: int| 0 <= i < ls.len() ==>
                (spec_find(#[trigger] ls[i], pattern) is Some <==> exists|j: int| 0 <= j < r.len() && (#[trigger] r[j]).0 == i + 1)
        }),
{
    let ls = spec_lines(content);
    let r = spec_search(false, None, pattern, ls);
    lemma_search_exact(false, pattern, ls);
    assert forall|i: int| 0 <= i < ls.len() implies
        (spec_find(#[trigger] ls[i], pattern) is Some <==> exists|j: int| 0 <= j < r.len() && (#[trigger] r[j]).0 == i + 1) by {
        assert(compared(false, ls[i]) == ls[i]);
        if exists|j: int| 0 <= j < r.len() && (#[trigger] r[j]).0 == i + 1 {
            let j = choose|j: int| 0 <= j < r.len() && (#[trigger] r[j]).0 == i + 1;
            assert(compared(false, r[j].1) == r[j].1);
        }
    }
    assert forall|j: int| 0 <= j < r.len() implies {
        let m = #[trigger] r[j];
        &&& 1 <= m.0 <= ls.len()
        &&& m.1 == ls[m.0 - 1]
        &&& spec_find(m.1, pattern) is Some
        &&& m.2 == spec_utf8_len(m.1.subrange(0, spec_find(m.1, pattern).unwrap())) || m.2 == usize::MAX
        &&& m.3 == spec_utf8_len(pattern) || m.3 == usize::MAX
    } by {
        assert(compared(false, r[j].1) == r[j].1);
        assert(compared(false, pattern) == pattern);
    }
}

/// A search that ignores the case compares the lower-cased line with the
/// lower-cased pattern: a line has a match exactly when its lower-cased
/// text contains the lower-cased pattern; the matches come in line order.
pub proof fn law_search_ignore_case(pattern: Seq<char>, content: Seq<char>)
    ensures
        ({
            let ls = spec_lines(content);
            let r = spec_search(true, None, pattern, ls);
            &&& forall|j: int| 0 <= j < r.len() ==> {
                let m = #[trigger] r[j];
                &&& 1 <= m.0 <= ls.len()
                &&& m.1 == ls[m.0 - 1]
                &&& spec_find(spec_to_lowercase(m.1), spec_to_lowercase(pattern)) is Some
            }
            &&& forall|j1: int, j2: int| 0 <= j1 < j2 < r.len() ==> (#[trigger] r[j1]).0 < (#[trigger] r[j2]).0
            &&& forall|i: int| 0 <= i < ls.len() ==>
                (spec_find(spec_to_lowercase(#[trigger] ls[i]), spec_to_lowercase(pattern)) is Some
                    <==> exists|j: int| 0 <= j < r.len() && (#[trigger] r[j]).0 == i + 1)
        }),
{
    let ls = spec_lines(content);
    let r = spec_search(true, None, pattern, ls);
    lemma_search_exact(true, pattern, ls);
    assert forall|i: int| 0 <= i < ls.len() implies
        (spec_find(spec_to_lowercase(#[trigger] ls[i]), spec_to_lowercase(pattern)) is Some
            <==> exists|j: int| 0 <= j < r.len() && (#[trigger] r[j]).0 == i + 1) by {
        assert(compared(true, ls[i]) == spec_to_lowercase(ls[i]));
        if exists|j: int| 0 <= j < r.len() && (#[trigger] r[j]).0 == i + 1 {
            let j = choose|j: int| 0 <= j < r.len() && (#[trigger] r[j]).0 == i + 1;
            assert(compared(true, r[j].1) == spec_to_lowercase(r[j].1));
        }
    }
    assert forall|j: int| 0 <= j < r.len() implies {
        let m = #[trigger] r[j];
        &&& 1 <= m.0 <= ls.len()
        &&& m.1 == ls[m.0 - 1]
        &&& spec_find(spec_to_lowercase(m.1), spec_to_lowercase(pattern)) is Some
    } by {
        assert(compared(true, r[j].1) == spec_to_lowercase(r[j].1));
    }
}

/// With a maximum, a search gives the first matches of the same search
/// without one: as many as the maximum allows (at least one), or all of
/// them when there are fewer.
pub proof fn law_search_max(ignore_case: bool, m: usize, pattern: Seq<char>, ls: Seq<Seq<char>>)
    ensures
        ({
            let all = spec_search(ignore_case, None, pattern, ls);
            let k: int = if m == 0 { 1 } else { m as int };
            spec_search(ignore_case, Some(m), pattern, ls)
                == all.take(if all.len() < k { all.len() as int } else { k })
        }),
    decreases ls.len(),
{
    let all = spec_search(ignore_case, None, pattern, ls);
    let k: int = if m == 0 { 1 } else { m as int };
    let capped = spec_search(ignore_case, Some(m), pattern, ls);
    if ls.len() == 0 {
        assert(all.take(0) =~= Seq::<MatchView>::empty());
    } else {
        let d = ls.drop_last();
        law_search_max(ignore_case, m, pattern, d);
        let a0 = spec_search(ignore_case, None, pattern, d);
        let c0 = spec_search(ignore_case, Some(m), pattern, d);
        assert(c0 == a0.take(if a0.len() < k { a0.len() as int } else { k }));
        assert(all.len() == a0.len() || all.len() == a0.len() + 1);
        assert forall|j: int| 0 <= j < a0.len() implies all[j] == a0[j] by {}
        if c0.len() >= k {
            assert(capped == c0);
            assert(capped =~= all.take(k));
        } else {
            assert(c0 =~= a0);
            assert(capped == all);
            assert(capped =~= all.take(all.len() as int));
        }
    }
}

} // verus!
