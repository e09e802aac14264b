//! Automatic correction of structural anomalies: the grandchildren column
//! ("Nietos") of the contents tables.

use vstd::prelude::*;
use crate::patterns::{escape, group, is_match, spec_group, spec_is_match, spec_regex_escape};
use crate::text::{
    chars_of, concat3, decimal, join, lines, owned, parse_usize, push_str, slice_to_vec,
    spec_contains, spec_decimal, spec_ends_with, spec_join, spec_lines, spec_parse_unsigned,
    spec_split, spec_starts_with, spec_to_lowercase, spec_trim, split, starts_with, ends_with,
    str_eq, string_of, strs, to_lowercase, trim, views, find,
};

verus! {

/// One correction.
#[derive(Debug, Clone)]
pub struct FixChange {
    pub path: String,
    pub field: String,
    pub old_value: String,
    pub new_value: String,
}

/// Outcome of a correction run.
#[derive(Debug, Clone)]
pub struct FixResult {
    pub files_scanned: usize,
    pub files_fixed: usize,
    pub rows_updated: usize,
    pub changes: Vec<FixChange>,
}

impl FixResult {
    pub fn new() -> (r: FixResult)
        ensures
            r.files_scanned == 0,
            r.files_fixed == 0,
            r.rows_updated == 0,
            r.changes@.len() == 0,
    {
        FixResult { files_scanned: 0, files_fixed: 0, rows_updated: 0, changes: Vec::new() }
    }

    pub fn add_change(&mut self, change: FixChange)
        ensures
            final(self).changes@ == old(self).changes@.push(change),
            final(self).files_scanned == old(self).files_scanned,
            final(self).files_fixed == old(self).files_fixed,
            final(self).rows_updated == old(self).rows_updated,
    {
        self.changes.push(change);
    }
}

/// Options of the fix command.
#[derive(Debug, Clone)]
pub struct FixCommand {
    pub path: Option<String>,
    pub tables: bool,
    pub dry_run: bool,
    pub verbose: bool,
}

/// Numeric id at the start of a name: digits, then groups of a dot and digits.
pub const ID_PREFIX: &'static str = r"^(\d+(?:\.\d+)*)";

/// Header of a contents table with a grandchildren column.
pub const NIETOS_TABLE: &'static str = r"^\|[^\|]+\|[^\|]+\|[^\|]+\|[^\|]*Nietos[^\|]*\|";

/// `s` without every leading repetition of `p` (`str::trim_start_matches`).
pub open spec fn strip_prefixes(s: Seq<char>, p: Seq<char>) -> Seq<char>
    decreases s.len(),
{
    if p.len() > 0 && spec_starts_with(s, p) { strip_prefixes(s.skip(p.len() as int), p) } else { s }
}

/// `s` without every trailing repetition of `p` (`str::trim_end_matches`).
pub open spec fn strip_suffixes(s: Seq<char>, p: Seq<char>) -> Seq<char>
    decreases s.len(),
{
    if p.len() > 0 && spec_ends_with(s, p) { strip_suffixes(s.subrange(0, s.len() - p.len()), p) } else { s }
}

/// The id a wiki link cell names: trimmed, brackets stripped, then the
/// numeric prefix.
pub open spec fn wikilink_id(cell: Seq<char>) -> Option<Seq<char>> {
    spec_group(ID_PREFIX@, strip_suffixes(strip_prefixes(spec_trim(cell), "[["@), "]]"@), 1)
}

/// The pattern matching the descendants of `id`: the escaped id, a dot and
/// a digit, at the start.
pub open spec fn descendant_pattern(id: Seq<char>) -> Seq<char> {
    "^"@ + spec_regex_escape(id) + r"\.(\d+)"@
}

/// Number of ids below `id` (matching [`descendant_pattern`]).
pub open spec fn descendants(id: Seq<char>, all: Seq<Seq<char>>) -> nat {
    all.filter(|o: Seq<char>| spec_is_match(descendant_pattern(id), o)).len()
}

/// All leading `p` removed.
fn strip_prefixes_exec(s: &[char], p: &[char]) -> (r: Vec<char>)
    ensures
        r@ == strip_prefixes(s@, p@),
{
    let mut i: usize = 0;
    if p.len() == 0 {
        return slice_to_vec(s, 0, s.len());
    }
    assert(s@.skip(0) =~= s@);
    while i <= s.len() && p.len() <= s.len() - i && crate::text::matches_at(s, p, i)
        invariant
            p@.len() > 0,
            i <= s@.len(),
            strip_prefixes(s@, p@) == strip_prefixes(s@.skip(i as int), p@),
        decreases s@.len() - i,
    {
        assert(s@.skip(i as int).subrange(0, p@.len() as int) =~= s@.subrange(i as int, i + p@.len()));
        assert(s@.skip(i as int).skip(p@.len() as int) =~= s@.skip(i + p@.len()));
        i = i + p.len();
    }
    proof {
        if spec_starts_with(s@.skip(i as int), p@) {
            assert(s@.skip(i as int).subrange(0, p@.len() as int) =~= s@.subrange(i as int, i + p@.len()));
        }
    }
    let r = slice_to_vec(s, i, s.len());
    assert(r@ =~= s@.skip(i as int));
    r
}

/// All trailing `p` removed.
fn strip_suffixes_exec(s: &[char], p: &[char]) -> (r: Vec<char>)
    ensures
        r@ == strip_suffixes(s@, p@),
{
    if p.len() == 0 {
        return slice_to_vec(s, 0, s.len());
    }
    let mut j: usize = s.len();
    assert(s@.subrange(0, s@.len() as int) =~= s@);
    loop
        invariant
            p@.len() > 0,
            j <= s@.len(),
            strip_suffixes(s@, p@) == strip_suffixes(s@.subrange(0, j as int), p@),
        decreases j,
    {
        let cur = slice_to_vec(s, 0, j);
        if ends_with(&cur, p) {
            assert(cur@.subrange(0, cur@.len() - p@.len()) =~= s@.subrange(0, j - p@.len()));
            j = j - p.len();
        } else {
            return cur;
        }
    }
}

impl FixCommand {
    /// The numeric id at the start of a file name (`"1.2.3 nombre"` gives
    /// `"1.2.3"`).
    pub fn extract_id(filename: &str) -> (r: Option<String>)
        ensures
            match r {
                Some(s) => spec_group(ID_PREFIX@, filename@, 1) == Some(s@),
                None => spec_group(ID_PREFIX@, filename@, 1) is None,
            },
    {
        group(ID_PREFIX, filename, 1)
    }

    /// The id named by a wiki link cell (`"[[1.2.3 nombre]]"` gives `"1.2.3"`).
    pub fn extract_id_from_wikilink(cell: &str) -> (r: Option<String>)
        ensures
            match r {
                Some(s) => wikilink_id(cell@) == Some(s@),
                None => wikilink_id(cell@) is None,
            },
    {
        let t = trim(&chars_of(cell));
        let open = chars_of("[[");
        let close = chars_of("]]");
        let a = strip_prefixes_exec(&t, &open);
        let b = strip_suffixes_exec(&a, &close);
        Self::extract_id(string_of(&b).as_str())
    }

    /// Number of ids below `id`: those starting with `id`, a dot and a digit.
    pub fn count_descendants(id: &str, all_ids: &Vec<String>) -> (n: usize)
        ensures
            n == descendants(id@, strs(all_ids@)),
    {
        let mut pat = owned("^");
        push_str(&mut pat, escape(id).as_str());
        push_str(&mut pat, r"\.(\d+)");
        let ghost av = strs(all_ids@);
        let mut n: usize = 0;
        let mut i: usize = 0;
        while i < all_ids.len()
            invariant
                i <= all_ids@.len(),
                av == strs(all_ids@),
                pat@ == descendant_pattern(id@),
                n == av.subrange(0, i as int).filter(|o: Seq<char>| spec_is_match(descendant_pattern(id@), o)).len(),
                n <= i,
            decreases all_ids@.len() - i,
        {
            proof {
                let sub = av.subrange(0, i + 1);
                assert(sub.drop_last() =~= av.subrange(0, i as int));
                reveal_with_fuel(Seq::<_>::filter, 1);
            }
            if is_match(pat.as_str(), all_ids[i].as_str()) {
                n = n + 1;
            }
            i = i + 1;
        }
        assert(av.subrange(0, all_ids@.len() as int) =~= av);
        n
    }

    /// The ids of the files, from their stems.
    pub fn collect_all_ids(stems: &Vec<String>) -> (r: Vec<String>)
        ensures
            strs(r@) == ids_of_stems(strs(stems@)),
    {
        let ghost sv = strs(stems@);
        let mut r: Vec<String> = Vec::new();
        let mut i: usize = 0;
        while i < stems.len()
            invariant
                i <= stems@.len(),
                sv == strs(stems@),
                strs(r@) == ids_of_stems(sv.subrange(0, i as int)),
            decreases stems@.len() - i,
        {
            let ghost sub = sv.subrange(0, i + 1);
            assert(sub.drop_last() =~= sv.subrange(0, i as int));
            match Self::extract_id(stems[i].as_str()) {
                Some(id) => {
                    let ghost r0 = strs(r@);
                    r.push(id);
                    assert(strs(r@) =~= r0.push(r@.last()@));
                },
                None => {},
            }
            i = i + 1;
        }
        assert(sv.subrange(0, stems@.len() as int) =~= sv);
        r
    }

    /// Whether a document holds a contents table with a grandchildren column.
    pub fn has_nietos_table(content: &str) -> (r: bool)
        ensures
            r == spec_is_match(NIETOS_TABLE@, content@),
    {
        is_match(NIETOS_TABLE, content)
    }
}

/// The ids found at the start of the stems, in order.
pub open spec fn ids_of_stems(ss: Seq<Seq<char>>) -> Seq<Seq<char>>
    decreases ss.len(),
{
    if ss.len() == 0 {
        Seq::empty()
    } else {
        let p = ids_of_stems(ss.drop_last());
        match spec_group(ID_PREFIX@, ss.last(), 1) {
            Some(id) => p.push(id),
            None => p,
        }
    }
}

// ─────────────────────────────────────────────────────────────────────────
// Contents tables
// ─────────────────────────────────────────────────────────────────────────

/// Where the table scan stands: inside a table, and the id and
/// grandchildren columns found in its header.
pub type TableState = (bool, Option<nat>, Option<nat>);

/// A table line: starts and ends with `|`.
pub open spec fn is_table_line(l: Seq<char>) -> bool {
    spec_starts_with(l, "|"@) && spec_ends_with(l, "|"@)
}

/// The last header column (before `upto`) that names the ids: `id`, or a
/// wiki link.
pub open spec fn id_column(cols: Seq<Seq<char>>, upto: int) -> Option<nat>
    decreases upto,
{
    if upto <= 0 {
        None
    } else {
        let c = spec_to_lowercase(spec_trim(cols[upto - 1]));
        if c == "id"@ || spec_starts_with(c, "[["@) { Some((upto - 1) as nat) } else { id_column(cols, upto - 1) }
    }
}

/// The last header column (before `upto`) named `nietos`.
pub open spec fn nietos_column(cols: Seq<Seq<char>>, upto: int) -> Option<nat>
    decreases upto,
{
    if upto <= 0 {
        None
    } else {
        let c = spec_to_lowercase(spec_trim(cols[upto - 1]));
        if c == "nietos"@ { Some((upto - 1) as nat) } else { nietos_column(cols, upto - 1) }
    }
}

/// The new text of a data row, if its declared grandchildren differ from
/// the ids found below its id.
pub open spec fn fixed_row(l: Seq<char>, id_col: nat, n_col: nat, all: Seq<Seq<char>>) -> Option<Seq<char>> {
    let cols = spec_split(l, '|');
    if cols.len() > id_col && cols.len() > n_col {
        match wikilink_id(spec_trim(cols[id_col as int])) {
            Some(id) => {
                let actual = descendants(id, all);
                let declared = match spec_parse_unsigned(spec_trim(cols[n_col as int]), usize::MAX as nat) {
                    Some(v) => v,
                    None => 0,
                };
                if declared != actual {
                    Some(spec_join(cols.update(n_col as int, " "@ + spec_decimal(actual) + " "@), "|"@))
                } else {
                    None
                }
            },
            None => None,
        }
    } else {
        None
    }
}

/// One step of the scan: the state after a line, and the line's new text
/// when it was corrected.
pub open spec fn table_step(st: TableState, l: Seq<char>, all: Seq<Seq<char>>) -> (TableState, Option<Seq<char>>) {
    if is_table_line(l) {
        if !st.0 {
            let cols = spec_split(l, '|');
            ((true, id_column(cols, cols.len() as int), nietos_column(cols, cols.len() as int)), None)
        } else if spec_contains(l, "---"@) {
            (st, None)
        } else {
            match (st.1, st.2) {
                (Some(i), Some(n)) => (st, fixed_row(l, i, n, all)),
                _ => (st, None),
            }
        }
    } else {
        ((false, None, None), None)
    }
}

/// The scan over the first lines: final state, the lines (corrected where
/// needed) and the number of corrections.
pub open spec fn table_scan(ls: Seq<Seq<char>>, all: Seq<Seq<char>>) -> (TableState, Seq<Seq<char>>, nat)
    decreases ls.len(),
{
    if ls.len() == 0 {
        ((false, None, None), Seq::empty(), 0)
    } else {
        let p = table_scan(ls.drop_last(), all);
        let (st, fixed) = table_step(p.0, ls.last(), all);
        match fixed {
            Some(nl) => (st, p.1.push(nl), p.2 + 1),
            None => (st, p.1.push(ls.last()), p.2),
        }
    }
}

/// Header columns of a table line.
fn header_columns(cols: &Vec<Vec<char>>) -> (r: (Option<usize>, Option<usize>))
    ensures
        (match r.0 { Some(i) => Some(i as nat), None => None }) == id_column(views(cols@), cols@.len() as int),
        (match r.1 { Some(i) => Some(i as nat), None => None }) == nietos_column(views(cols@), cols@.len() as int),
{
    let ghost cv = views(cols@);
    let mut id_col: Option<usize> = None;
    let mut n_col: Option<usize> = None;
    let mut j: usize = 0;
    while j < cols.len()
        invariant
            j <= cols@.len(),
            cv == views(cols@),
            (match id_col { Some(i) => Some(i as nat), None => None }) == id_column(cv, j as int),
            (match n_col { Some(i) => Some(i as nat), None => None }) == nietos_column(cv, j as int),
        decreases cols@.len() - j,
    {
        let low = to_lowercase(string_of(&trim(cols[j].as_slice())).as_str());
        let lv = chars_of(low.as_str());
        proof {
            assert(cv[j as int] == cols@[j as int]@);
        }
        if str_eq(low.as_str(), "id") || starts_with(&lv, &chars_of("[[")) {
            id_col = Some(j);
        }
        if str_eq(low.as_str(), "nietos") {
            n_col = Some(j);
        }
        j = j + 1;
    }
    (id_col, n_col)
}

/// The corrected text of a data row, if it needs one.
fn fix_row(l: &Vec<char>, id_col: usize, n_col: usize, all_ids: &Vec<String>) -> (r: Option<String>)
    ensures
        match r {
            Some(s) => fixed_row(l@, id_col as nat, n_col as nat, strs(all_ids@)) == Some(s@),
            None => fixed_row(l@, id_col as nat, n_col as nat, strs(all_ids@)) is None,
        },
{
    let cols = split(l.as_slice(), '|');
    let ghost cv = views(cols@);
    if cols.len() > id_col && cols.len() > n_col {
        let id_cell = string_of(&trim(cols[id_col].as_slice()));
        proof {
            assert(cv[id_col as int] == cols@[id_col as int]@);
            assert(cv[n_col as int] == cols@[n_col as int]@);
            assert(crate::text::spec_trim(spec_trim(cv[id_col as int])) == spec_trim(spec_trim(cv[id_col as int])));
        }
        match FixCommand::extract_id_from_wikilink(id_cell.as_str()) {
            Some(id) => {
                let actual = FixCommand::count_descendants(id.as_str(), all_ids);
                let declared = match parse_usize(string_of(&trim(cols[n_col].as_slice())).as_str()) {
                    Some(v) => v,
                    None => 0,
                };
                if declared != actual {
                    let mut parts: Vec<String> = Vec::new();
                    let mut k: usize = 0;
                    let cell = concat3(" ", decimal(actual).as_str(), " ");
                    while k < cols.len()
                        invariant
                            k <= cols@.len(),
                            n_col < cols@.len(),
                            cv == views(cols@),
                            strs(parts@) == cv.update(n_col as int, cell@).subrange(0, k as int),
                        decreases cols@.len() - k,
                    {
                        let ghost p0 = strs(parts@);
                        proof {
                            assert(cv[k as int] == cols@[k as int]@);
                        }
                        if k == n_col {
                            let c = cell.clone();
                            assert(c@ == cell@);
                            parts.push(c);
                        } else {
                            parts.push(string_of(cols[k].as_slice()));
                        }
                        assert(strs(parts@) =~= p0.push(cv.update(n_col as int, cell@)[k as int]));
                        assert(strs(parts@) =~= cv.update(n_col as int, cell@).subrange(0, k + 1));
                        k = k + 1;
                    }
                    assert(cv.update(n_col as int, cell@).subrange(0, cols@.len() as int) =~= cv.update(n_col as int, cell@));
                    Some(join(&parts, "|"))
                } else {
                    None
                }
            },
            None => None,
        }
    } else {
        None
    }
}

/// Corrects the grandchildren column of the contents tables of a document:
/// the lines joined back with `\n`, and the number of rows corrected.
pub fn parse_and_fix_table(content: &str, all_ids: &Vec<String>) -> (r: (String, usize))
    ensures
        ({
            let s = table_scan(spec_lines(content@), strs(all_ids@));
            &&& r.0@ == spec_join(s.1, "\n"@)
            &&& r.1 == s.2
        }),
{
    let ls = lines(&chars_of(content));
    let ghost lv = views(ls@);
    let ghost all = strs(all_ids@);
    let bar = chars_of("|");
    let dashes = chars_of("---");
    let mut out: Vec<String> = Vec::new();
    let mut updates: usize = 0;
    let mut in_table = false;
    let mut id_col: Option<usize> = None;
    let mut n_col: Option<usize> = None;
    let mut i: usize = 0;
    while i < ls.len()
        invariant
            i <= ls@.len(),
            lv == views(ls@),
            all == strs(all_ids@),
            bar@ == "|"@,
            dashes@ == "---"@,
            ({
                let s = table_scan(lv.subrange(0, i as int), all);
                &&& s.0 == (in_table, match id_col { Some(c) => Some(c as nat), None => None },
                    match n_col { Some(c) => Some(c as nat), None => None })
                &&& strs(out@) == s.1
                &&& updates == s.2
            }),
            updates <= i,
        decreases ls@.len() - i,
    {
        let l = &ls[i];
        let ghost sub = lv.subrange(0, i + 1);
        proof {
            assert(sub.drop_last() =~= lv.subrange(0, i as int));
            assert(sub.last() == l@);
        }
        let ghost o0 = strs(out@);
        if starts_with(l, &bar) && ends_with(l, &bar) {
            if !in_table {
                in_table = true;
                let cols = split(l.as_slice(), '|');
                let (a, b) = header_columns(&cols);
                id_col = a;
                n_col = b;
                out.push(string_of(l.as_slice()));
            } else if find(l, &dashes).is_some() {
                out.push(string_of(l.as_slice()));
            } else {
                let fixed = match (id_col, n_col) {
                    (Some(a), Some(b)) => fix_row(l, a, b, all_ids),
                    _ => None,
                };
                match fixed {
                    Some(nl) => {
                        out.push(nl);
                        updates = updates + 1;
                    },
                    None => {
                        out.push(string_of(l.as_slice()));
                    },
                }
            }
        } else {
            in_table = false;
            id_col = None;
            n_col = None;
            out.push(string_of(l.as_slice()));
        }
        assert(strs(out@) =~= o0.push(out@.last()@));
        i = i + 1;
    }
    assert(lv.subrange(0, ls@.len() as int) =~= lv);
    proof {
        reveal_strlit("\n");
    }
    (join(&out, "\n"), updates)
}

} // verus!
