//! Comparison of two states of the documentation.

use vstd::prelude::*;
use crate::paths::{path_join, spec_path_join};
use crate::text::{
    chars_of, decimal, lines, owned, pad_center, pad_right, push_str, spec_decimal, spec_lines,
    spec_pad_center, spec_pad_right, spec_repeat, spec_take, str_eq, strs, take_chars, views,
    contains_str, string_of,
};

verus! {

/// Kind of a change.
#[derive(Debug, Clone, Copy, PartialEq, Eq, Structural)]
pub enum ChangeType {
    Added,
    Modified,
    Deleted,
    Renamed,
}

/// One change between the two states.
#[derive(Debug, Clone)]
pub struct DiffChange {
    pub path: String,
    pub change_type: ChangeType,
    pub old_value: Option<String>,
    pub new_value: Option<String>,
}

/// Outcome of a comparison.
#[derive(Debug, Clone)]
pub struct DiffResult {
    pub from_ref: String,
    pub to_ref: String,
    pub changes: Vec<DiffChange>,
}

/// Number of changes of one kind.
pub open spec fn count_kind(cs: Seq<DiffChange>, t: ChangeType) -> nat {
    cs.filter(|c: DiffChange| c.change_type == t).len()
}

impl DiffResult {
    pub fn new(from: &str, to: &str) -> (r: DiffResult)
        ensures
            r.from_ref@ == from@,
            r.to_ref@ == to@,
            r.changes@.len() == 0,
    {
        DiffResult { from_ref: owned(from), to_ref: owned(to), changes: Vec::new() }
    }

    /// Number of changes of kind `t`.
    fn count(&self, t: ChangeType) -> (n: usize)
        ensures
            n == count_kind(self.changes@, t),
    {
        let mut n: usize = 0;
        let mut i: usize = 0;
        while i < self.changes.len()
            invariant
                i <= self.changes@.len(),
                n == self.changes@.subrange(0, i as int).filter(|c: DiffChange| c.change_type == t).len(),
                n <= i,
            decreases self.changes@.len() - i,
        {
            proof {
                let sub = self.changes@.subrange(0, i + 1);
                assert(sub.drop_last() =~= self.changes@.subrange(0, i as int));
                reveal_with_fuel(Seq::<_>::filter, 1);
            }
            if self.changes[i].change_type == t {
                n = n + 1;
            }
            i = i + 1;
        }
        assert(self.changes@.subrange(0, self.changes@.len() as int) =~= self.changes@);
        n
    }

    pub fn added_count(&self) -> (n: usize)
        ensures
            n == count_kind(self.changes@, ChangeType::Added),
    {
        self.count(ChangeType::Added)
    }

    pub fn modified_count(&self) -> (n: usize)
        ensures
            n == count_kind(self.changes@, ChangeType::Modified),
    {
        self.count(ChangeType::Modified)
    }

    pub fn deleted_count(&self) -> (n: usize)
        ensures
            n == count_kind(self.changes@, ChangeType::Deleted),
    {
        self.count(ChangeType::Deleted)
    }
}

/// Options of the diff command.
#[derive(Debug, Clone)]
pub struct DiffCommand {
    pub from: String,
    pub to: String,
    pub stat: bool,
    pub path: Option<String>,
    pub side_by_side: bool,
    pub context: usize,
}

/// A reference given as a path: it starts with `/` or `.`.
pub open spec fn is_path_ref(r: Seq<char>) -> bool {
    r.len() > 0 && (r[0] == '/' || r[0] == '.')
}

/// A file of a state, as (file name, content).
pub open spec fn state_view(fs: Seq<(String, String)>) -> Seq<(Seq<char>, Seq<char>)> {
    fs.map_values(|f: (String, String)| (f.0@, f.1@))
}

/// The file names of a state.
pub open spec fn state_names(fs: Seq<(Seq<char>, Seq<char>)>) -> Seq<Seq<char>> {
    fs.map_values(|f: (Seq<char>, Seq<char>)| f.0)
}

/// The content of the first file with the given name.
pub open spec fn content_of(fs: Seq<(Seq<char>, Seq<char>)>, n: Seq<char>) -> Seq<char>
    decreases fs.len(),
{
    if fs.len() == 0 {
        Seq::empty()
    } else if fs[0].0 == n {
        fs[0].1
    } else {
        content_of(fs.drop_first(), n)
    }
}

/// A change as (path, kind, old value, new value).
pub type ChangeView = (Seq<char>, ChangeType, Option<Seq<char>>, Option<Seq<char>>);

/// The texts of the changes.
pub open spec fn changes_view(cs: Seq<DiffChange>) -> Seq<ChangeView> {
    cs.map_values(|c: DiffChange| (c.path@, c.change_type,
        match c.old_value { Some(v) => Some(v@), None => None },
        match c.new_value { Some(v) => Some(v@), None => None }))
}

/// `a - b` when it is positive, 0 otherwise.
pub open spec fn sat_sub(a: nat, b: nat) -> nat {
    if a >= b { (a - b) as nat } else { 0 }
}

/// The change recorded for a file whose content differs: line counts before
/// and after, and the lines gained and lost.
pub open spec fn modified_change(n: Seq<char>, from_c: Seq<char>, to_c: Seq<char>) -> ChangeView {
    let lf = spec_lines(from_c).len();
    let lt = spec_lines(to_c).len();
    (n, ChangeType::Modified,
        Some(spec_decimal(lf) + " líneas"@),
        Some(spec_decimal(lt) + " líneas (+"@ + spec_decimal(sat_sub(lt, lf)) + " -"@
            + spec_decimal(sat_sub(lf, lt)) + " líneas)"@))
}

/// The changes between two states: files only in the second (added), files
/// only in the first (deleted), then files in both whose content differs
/// (modified); each group in the order of its state, each name once.
pub open spec fn spec_changes(from: Seq<(Seq<char>, Seq<char>)>, to: Seq<(Seq<char>, Seq<char>)>) -> Seq<ChangeView> {
    let fnames = distinct(state_names(from));
    let tnames = distinct(state_names(to));
    tnames.filter(|n: Seq<char>| !fnames.contains(n))
        .map_values(|n: Seq<char>| (n, ChangeType::Added, None::<Seq<char>>, Some("[nuevo archivo]"@)))
    + fnames.filter(|n: Seq<char>| !tnames.contains(n))
        .map_values(|n: Seq<char>| (n, ChangeType::Deleted, Some("[archivo eliminado]"@), None::<Seq<char>>))
    + fnames.filter(|n: Seq<char>| tnames.contains(n) && content_of(from, n) != content_of(to, n))
        .map_values(|n: Seq<char>| modified_change(n, content_of(from, n), content_of(to, n)))
}

/// The names, each once, in first-appearance order.
pub open spec fn distinct(ns: Seq<Seq<char>>) -> Seq<Seq<char>>
    decreases ns.len(),
{
    if ns.len() == 0 {
        Seq::empty()
    } else {
        let p = distinct(ns.drop_last());
        if p.contains(ns.last()) { p } else { p.push(ns.last()) }
    }
}

/// The names of a state, each once.
fn distinct_names(fs: &Vec<(String, String)>) -> (r: Vec<String>)
    ensures
        strs(r@) == distinct(state_names(state_view(fs@))),
{
    let ghost ns = state_names(state_view(fs@));
    let mut r: Vec<String> = Vec::new();
    let mut i: usize = 0;
    while i < fs.len()
        invariant
            i <= fs@.len(),
            ns == state_names(state_view(fs@)),
            strs(r@) == distinct(ns.subrange(0, i as int)),
        decreases fs@.len() - i,
    {
        let ghost sub = ns.subrange(0, i + 1);
        assert(sub.drop_last() =~= ns.subrange(0, i as int));
        if !contains_str(&r, fs[i].0.as_str()) {
            let ghost r0 = strs(r@);
            r.push(fs[i].0.clone());
            assert(strs(r@) =~= r0.push(ns[i as int]));
        }
        i = i + 1;
    }
    assert(ns.subrange(0, fs@.len() as int) =~= ns);
    r
}

/// The content of the first file named `n`.
fn content_in(fs: &Vec<(String, String)>, n: &String) -> (r: String)
    ensures
        r@ == content_of(state_view(fs@), n@),
{
    let ghost sv = state_view(fs@);
    let mut i: usize = 0;
    assert(sv.skip(0) =~= sv);
    while i < fs.len()
        invariant
            i <= fs@.len(),
            sv == state_view(fs@),
            content_of(sv, n@) == content_of(sv.skip(i as int), n@),
        decreases fs@.len() - i,
    {
        assert(sv.skip(i as int).drop_first() =~= sv.skip(i + 1));
        assert(sv.skip(i as int)[0] == sv[i as int]);
        if str_eq(fs[i].0.as_str(), n.as_str()) {
            return fs[i].1.clone();
        }
        i = i + 1;
    }
    assert(sv.skip(i as int).len() == 0);
    String::new()
}

impl DiffCommand {
    /// The directory of the first state: the reference itself when it is a
    /// path, otherwise the reference under the data directory.
    pub fn from_dir(&self, data_dir: &str) -> (r: String)
        ensures
            r@ == (if is_path_ref(self.from@) { self.from@ } else { spec_path_join(data_dir@, self.from@) }),
    {
        let c = chars_of(self.from.as_str());
        if c.len() > 0 && (c[0] == '/' || c[0] == '.') {
            self.from.clone()
        } else {
            path_join(data_dir, self.from.as_str())
        }
    }

    /// The directory of the second state: the reference itself when it is a
    /// path, otherwise the data directory.
    pub fn to_dir(&self, data_dir: &str) -> (r: String)
        ensures
            r@ == (if is_path_ref(self.to@) { self.to@ } else { data_dir@ }),
    {
        let c = chars_of(self.to.as_str());
        if c.len() > 0 && (c[0] == '/' || c[0] == '.') {
            self.to.clone()
        } else {
            owned(data_dir)
        }
    }

    /// The changes between two states, each given as (file name, content)
    /// pairs.
    pub fn run(&self, from_files: &Vec<(String, String)>, to_files: &Vec<(String, String)>) -> (r: DiffResult)
        ensures
            r.from_ref@ == self.from@,
            r.to_ref@ == self.to@,
            changes_view(r.changes@) == spec_changes(state_view(from_files@), state_view(to_files@)),
    {
        let ghost fv = state_view(from_files@);
        let ghost tv = state_view(to_files@);
        let fnames = distinct_names(from_files);
        let tnames = distinct_names(to_files);
        let ghost fn_ = strs(fnames@);
        let ghost tn = strs(tnames@);
        let mut result = DiffResult::new(self.from.as_str(), self.to.as_str());
        // Added.
        let mut i: usize = 0;
        while i < tnames.len()
            invariant
                i <= tnames@.len(),
                fn_ == strs(fnames@),
                tn == strs(tnames@),
                changes_view(result.changes@) == tn.subrange(0, i as int).filter(|n: Seq<char>| !fn_.contains(n))
                    .map_values(|n: Seq<char>| (n, ChangeType::Added, None::<Seq<char>>, Some("[nuevo archivo]"@))),
                result.from_ref@ == self.from@,
                result.to_ref@ == self.to@,
            decreases tnames@.len() - i,
        {
            proof {
                let sub = tn.subrange(0, i + 1);
                assert(sub.drop_last() =~= tn.subrange(0, i as int));
                reveal_with_fuel(Seq::<_>::filter, 1);
            }
            if !contains_str(&fnames, tnames[i].as_str()) {
                let ghost c0 = changes_view(result.changes@);
                result.changes.push(DiffChange {
                    path: tnames[i].clone(),
                    change_type: ChangeType::Added,
                    old_value: None,
                    new_value: Some(owned("[nuevo archivo]")),
                });
                assert(changes_view(result.changes@) =~= c0.push((tn[i as int], ChangeType::Added, None::<Seq<char>>, Some("[nuevo archivo]"@))));
            }
            i = i + 1;
        }
        assert(tn.subrange(0, tnames@.len() as int) =~= tn);
        let ghost added = changes_view(result.changes@);
        // Deleted.
        i = 0;
        while i < fnames.len()
            invariant
                i <= fnames@.len(),
                fn_ == strs(fnames@),
                tn == strs(tnames@),
                changes_view(result.changes@) == added + fn_.subrange(0, i as int).filter(|n: Seq<char>| !tn.contains(n))
                    .map_values(|n: Seq<char>| (n, ChangeType::Deleted, Some("[archivo eliminado]"@), None::<Seq<char>>)),
                result.from_ref@ == self.from@,
                result.to_ref@ == self.to@,
            decreases fnames@.len() - i,
        {
            proof {
                let sub = fn_.subrange(0, i + 1);
                assert(sub.drop_last() =~= fn_.subrange(0, i as int));
                reveal_with_fuel(Seq::<_>::filter, 1);
            }
            if !contains_str(&tnames, fnames[i].as_str()) {
                let ghost c0 = changes_view(result.changes@);
                result.changes.push(DiffChange {
                    path: fnames[i].clone(),
                    change_type: ChangeType::Deleted,
                    old_value: Some(owned("[archivo eliminado]")),
                    new_value: None,
                });
                assert(changes_view(result.changes@) =~= c0.push((fn_[i as int], ChangeType::Deleted, Some("[archivo eliminado]"@), None::<Seq<char>>)));
            }
            i = i + 1;
        }
        assert(fn_.subrange(0, fnames@.len() as int) =~= fn_);
        let ghost deleted = changes_view(result.changes@);
        // Modified.
        i = 0;
        while i < fnames.len()
            invariant
                i <= fnames@.len(),
                fn_ == strs(fnames@),
                tn == strs(tnames@),
                fv == state_view(from_files@),
                tv == state_view(to_files@),
                changes_view(result.changes@) == deleted + fn_.subrange(0, i as int)
                    .filter(|n: Seq<char>| tn.contains(n) && content_of(fv, n) != content_of(tv, n))
                    .map_values(|n: Seq<char>| modified_change(n, content_of(fv, n), content_of(tv, n))),
                result.from_ref@ == self.from@,
                result.to_ref@ == self.to@,
            decreases fnames@.len() - i,
        {
            proof {
                let sub = fn_.subrange(0, i + 1);
                assert(sub.drop_last() =~= fn_.subrange(0, i as int));
                reveal_with_fuel(Seq::<_>::filter, 1);
            }
            if contains_str(&tnames, fnames[i].as_str()) {
                let fc = content_in(from_files, &fnames[i]);
                let tc = content_in(to_files, &fnames[i]);
                if !str_eq(fc.as_str(), tc.as_str()) {
                    let lf = lines(&chars_of(fc.as_str())).len();
                    let lt = lines(&chars_of(tc.as_str())).len();
                    let mut old_v = decimal(lf);
                    push_str(&mut old_v, " líneas");
                    let mut new_v = decimal(lt);
                    push_str(&mut new_v, " líneas (+");
                    push_str(&mut new_v, decimal(lt.saturating_sub(lf)).as_str());
                    push_str(&mut new_v, " -");
                    push_str(&mut new_v, decimal(lf.saturating_sub(lt)).as_str());
                    push_str(&mut new_v, " líneas)");
                    let ghost c0 = changes_view(result.changes@);
                    result.changes.push(DiffChange {
                        path: fnames[i].clone(),
                        change_type: ChangeType::Modified,
                        old_value: Some(old_v),
                        new_value: Some(new_v),
                    });
                    assert(changes_view(result.changes@) =~= c0.push(modified_change(fn_[i as int], fc@, tc@)));
                }
            }
            i = i + 1;
        }
        assert(fn_.subrange(0, fnames@.len() as int) =~= fn_);
        assert(changes_view(result.changes@) =~= spec_changes(fv, tv));
        result
    }

    /// Two files side by side, `width` characters wide: a title rule, the
    /// column headers, a rule, then one row per line with `*` marking rows
    /// that differ; cells are cut to half the width less two.
    pub fn render_side_by_side(from_content: &str, to_content: &str, width: usize) -> (s: String)
        requires
            width >= 4,
        ensures
            s@ == side_by_side(from_content@, to_content@, width as nat),
    {
        let half = width / 2 - 2;
        let fl = lines(&chars_of(from_content));
        let tl = lines(&chars_of(to_content));
        let max = if fl.len() >= tl.len() { fl.len() } else { tl.len() };
        let mut out = pad_center(" DIFF SIDE-BY-SIDE ", width, '─');
        push_str(&mut out, "\n");
        push_str(&mut out, pad_center("FROM", half, ' ').as_str());
        push_str(&mut out, " │ ");
        push_str(&mut out, pad_center("TO", half, ' ').as_str());
        push_str(&mut out, "\n");
        push_str(&mut out, pad_right("", half, '─').as_str());
        push_str(&mut out, "─┼─");
        push_str(&mut out, pad_right("", half, '─').as_str());
        push_str(&mut out, "\n");
        let ghost head = out@;
        let ghost flv = views(fl@);
        let ghost tlv = views(tl@);
        let mut i: usize = 0;
        assert(flv == spec_lines(from_content@));
        assert(tlv == spec_lines(to_content@));
        while i < max
            invariant
                i <= max,
                max == (if fl@.len() >= tl@.len() { fl@.len() } else { tl@.len() }),
                flv == views(fl@),
                tlv == views(tl@),
                out@ == head + side_rows(flv, tlv, half as nat, i as nat),
            decreases max - i,
        {
            let left = if i < fl.len() { string_of(&fl[i]) } else { String::new() };
            let right = if i < tl.len() { string_of(&tl[i]) } else { String::new() };
            proof {
                assert(left@ == line_at(flv, i as int));
                assert(right@ == line_at(tlv, i as int));
            }
            let row = side_row_exec(left.as_str(), right.as_str(), half);
            let ghost o0 = out@;
            push_str(&mut out, row.as_str());
            assert(out@ =~= head + side_rows(flv, tlv, half as nat, (i + 1) as nat));
            i = i + 1;
        }
        out
    }
}

/// One row of the side-by-side view.
fn side_row_exec(l: &str, r: &str, half: usize) -> (s: String)
    ensures
        s@ == side_row(l@, r@, half as nat),
{
    let lt = take_chars(l, half);
    let rt = take_chars(r, half);
    let marker = if !str_eq(l, r) { "│*" } else { "│ " };
    let mut out = pad_right(lt.as_str(), half, ' ');
    push_str(&mut out, marker);
    push_str(&mut out, pad_right(rt.as_str(), half, ' ').as_str());
    push_str(&mut out, "\n");
    out
}

/// Line `i` of a text's lines, or the empty text past the end.
pub open spec fn line_at(ls: Seq<Seq<char>>, i: int) -> Seq<char> {
    if 0 <= i < ls.len() { ls[i] } else { Seq::empty() }
}

/// One row of the side-by-side view.
pub open spec fn side_row(l: Seq<char>, r: Seq<char>, half: nat) -> Seq<char> {
    spec_pad_right(spec_take(l, half), half, ' ') + (if l != r { "│*"@ } else { "│ "@ })
        + spec_pad_right(spec_take(r, half), half, ' ') + "\n"@
}

/// The first `n` rows of the side-by-side view.
pub open spec fn side_rows(ls: Seq<Seq<char>>, rs: Seq<Seq<char>>, half: nat, n: nat) -> Seq<char>
    decreases n,
{
    if n == 0 {
        Seq::empty()
    } else {
        side_rows(ls, rs, half, (n - 1) as nat) + side_row(line_at(ls, n - 1), line_at(rs, n - 1), half)
    }
}

/// The whole side-by-side view.
pub open spec fn side_by_side(from: Seq<char>, to: Seq<char>, width: nat) -> Seq<char> {
    let half = (width / 2 - 2) as nat;
    let ls = spec_lines(from);
    let rs = spec_lines(to);
    let max = if ls.len() >= rs.len() { ls.len() } else { rs.len() };
    spec_pad_center(" DIFF SIDE-BY-SIDE "@, width, '─') + "\n"@
        + spec_pad_center("FROM"@, half, ' ') + " │ "@ + spec_pad_center("TO"@, half, ' ') + "\n"@
        + spec_pad_right(""@, half, '─') + "─┼─"@ + spec_pad_right(""@, half, '─') + "\n"@
        + side_rows(ls, rs, half, max)
}

/// The first file with a name holds the content that `content_of` gives.
proof fn lemma_content_of_first(fs: Seq<(Seq<char>, Seq<char>)>, i: int)
    requires
        0 <= i < fs.len(),
        forall|a: int| 0 <= a < i ==> fs[a].0 != fs[i].0,
    ensures
        content_of(fs, fs[i].0) == fs[i].1,
    decreases fs.len(),
{
    if i > 0 {
        assert(fs[0].0 != fs[i].0);
        let d = fs.drop_first();
        assert(d[i - 1] == fs[i]);
        assert forall|a: int| 0 <= a < i - 1 implies (#[trigger] d[a]).0 != d[i - 1].0 by {
            assert(d[a] == fs[a + 1]);
        }
        lemma_content_of_first(d, i - 1);
    }
}

/// The names kept once are the names.
proof fn lemma_distinct_contains(ns: Seq<Seq<char>>, x: Seq<char>)
    ensures
        distinct(ns).contains(x) <==> ns.contains(x),
    decreases ns.len(),
{
    if ns.len() > 0 {
        let d = ns.drop_last();
        lemma_distinct_contains(d, x);
        let p = distinct(d);
        if d.contains(x) {
            let k = choose|k: int| 0 <= k < d.len() && d[k] == x;
            assert(ns[k] == x);
        }
        if ns.contains(x) && !d.contains(x) {
            assert(ns.last() == x) by {
                let k = choose|k: int| 0 <= k < ns.len() && ns[k] == x;
                if k < ns.len() - 1 {
                    assert(d[k] == x);
                }
            }
        }
        if distinct(ns).contains(x) && !p.contains(x) {
            assert(distinct(ns) == p.push(ns.last()));
            let k = choose|k: int| 0 <= k < distinct(ns).len() && distinct(ns)[k] == x;
            assert(k == p.len());
            assert(ns[ns.len() - 1] == x);
        }
        if !p.contains(ns.last()) {
            assert(distinct(ns)[p.len() as int] == ns.last());
        }
        if p.contains(x) {
            let k = choose|k: int| 0 <= k < p.len() && p[k] == x;
            assert(distinct(ns)[k] == x);
        }
    }
}

/// A name is among the names of a state exactly when some file has it.
proof fn lemma_state_names(fs: Seq<(Seq<char>, Seq<char>)>, x: Seq<char>)
    ensures
        distinct(state_names(fs)).contains(x) <==> exists|i: int| 0 <= i < fs.len() && (#[trigger] fs[i]).0 == x,
{
    lemma_distinct_contains(state_names(fs), x);
    if state_names(fs).contains(x) {
        let k = choose|k: int| 0 <= k < state_names(fs).len() && state_names(fs)[k] == x;
        assert(fs[k].0 == x);
    }
    if exists|i: int| 0 <= i < fs.len() && (#[trigger] fs[i]).0 == x {
        let i = choose|i: int| 0 <= i < fs.len() && (#[trigger] fs[i]).0 == x;
        assert(state_names(fs)[i] == x);
    }
}

/// A file present in both states is reported as modified exactly when its
/// content (that of the first file with its name, in each state) differs
/// between them; the change gives its line count before, its line count
/// after, and the lines gained and lost, one of which is zero.
pub proof fn law_diff_modified(from: Seq<(Seq<char>, Seq<char>)>, to: Seq<(Seq<char>, Seq<char>)>, i: int, k: int)
    requires
        0 <= i < from.len(),
        0 <= k < to.len(),
        from[i].0 == to[k].0,
        forall|a: int| 0 <= a < i ==> from[a].0 != from[i].0,
        forall|b: int| 0 <= b < k ==> to[b].0 != to[k].0,
    ensures
        (exists|j: int| 0 <= j < spec_changes(from, to).len()
            && (#[trigger] spec_changes(from, to)[j]).0 == from[i].0
            && spec_changes(from, to)[j].1 == ChangeType::Modified)
        <==> from[i].1 != to[k].1,
        forall|j: int| 0 <= j < spec_changes(from, to).len() && (#[trigger] spec_changes(from, to)[j]).0 == from[i].0
            && spec_changes(from, to)[j].1 == ChangeType::Modified ==> {
            let lf = spec_lines(from[i].1).len();
            let lt = spec_lines(to[k].1).len();
            &&& spec_changes(from, to)[j].2 == Some(spec_decimal(lf) + " líneas"@)
            &&& exists|g: nat, l: nat| g - l == lt - lf && (g == 0 || l == 0)
                && spec_changes(from, to)[j].3 == Some(spec_decimal(lt) + " líneas (+"@ + spec_decimal(g) + " -"@
                    + spec_decimal(l) + " líneas)"@)
        },
{
    let n = from[i].0;
    let fnames = distinct(state_names(from));
    let tnames = distinct(state_names(to));
    lemma_content_of_first(from, i);
    lemma_content_of_first(to, k);
    lemma_state_names(from, n);
    lemma_state_names(to, n);
    assert(fnames.contains(n));
    assert(tnames.contains(n));
    let a = tnames.filter(|x: Seq<char>| !fnames.contains(x))
        .map_values(|x: Seq<char>| (x, ChangeType::Added, None::<Seq<char>>, Some("[nuevo archivo]"@)));
    let d = fnames.filter(|x: Seq<char>| !tnames.contains(x))
        .map_values(|x: Seq<char>| (x, ChangeType::Deleted, Some("[archivo eliminado]"@), None::<Seq<char>>));
    let f = fnames.filter(|x: Seq<char>| tnames.contains(x) && content_of(from, x) != content_of(to, x));
    let m = f.map_values(|x: Seq<char>| modified_change(x, content_of(from, x), content_of(to, x)));
    let c = spec_changes(from, to);
    assert(c == a + d + m);
    if exists|j: int| 0 <= j < c.len() && (#[trigger] c[j]).0 == n && c[j].1 == ChangeType::Modified {
        let j = choose|j: int| 0 <= j < c.len() && (#[trigger] c[j]).0 == n && c[j].1 == ChangeType::Modified;
        if j < a.len() {
            assert(c[j] == a[j]);
        } else if j < a.len() + d.len() {
            assert(c[j] == d[j - a.len()]);
        } else {
            let q = j - a.len() - d.len();
            assert(c[j] == m[q]);
            assert(m[q].0 == f[q]);
            assert(tnames.contains(f[q]) && content_of(from, f[q]) != content_of(to, f[q]));
        }
    }
    assert forall|j: int| 0 <= j < c.len() && (#[trigger] c[j]).0 == n && c[j].1 == ChangeType::Modified implies {
        let lf = spec_lines(from[i].1).len();
        let lt = spec_lines(to[k].1).len();
        &&& c[j].2 == Some(spec_decimal(lf) + " líneas"@)
        &&& exists|g: nat, l: nat| g - l == lt - lf && (g == 0 || l == 0)
            && c[j].3 == Some(spec_decimal(lt) + " líneas (+"@ + spec_decimal(g) + " -"@ + spec_decimal(l) + " líneas)"@)
    } by {
        let lf = spec_lines(from[i].1).len();
        let lt = spec_lines(to[k].1).len();
        if j < a.len() {
            assert(c[j] == a[j]);
        } else if j < a.len() + d.len() {
            assert(c[j] == d[j - a.len()]);
        } else {
            let q = j - a.len() - d.len();
            assert(c[j] == m[q]);
            assert(m[q].0 == f[q]);
            assert(c[j] == modified_change(n, from[i].1, to[k].1));
            let g = sat_sub(lt, lf);
            let l = sat_sub(lf, lt);
            assert(g - l == lt - lf && (g == 0 || l == 0));
        }
    }
    if from[i].1 != to[k].1 {
        let q0 = choose|q: int| 0 <= q < fnames.len() && fnames[q] == n;
        assert(f.contains(fnames[q0]));
        let q = choose|q: int| 0 <= q < f.len() && f[q] == n;
        let j = a.len() + d.len() + q;
        assert(c[j] == m[q]);
        assert(c[j].0 == n && c[j].1 == ChangeType::Modified);
    }
}

/// A name is reported as added exactly when a file of the second state has
/// it and none of the first; as deleted exactly when a file of the first
/// state has it and none of the second.
pub proof fn law_diff_added_deleted(from: Seq<(Seq<char>, Seq<char>)>, to: Seq<(Seq<char>, Seq<char>)>, n: Seq<char>)
    ensures
        (exists|j: int| 0 <= j < spec_changes(from, to).len()
            && (#[trigger] spec_changes(from, to)[j]).0 == n && spec_changes(from, to)[j].1 == ChangeType::Added)
        <==> ((exists|i: int| 0 <= i < to.len() && (#[trigger] to[i]).0 == n)
            && !(exists|i: int| 0 <= i < from.len() && (#[trigger] from[i]).0 == n)),
        (exists|j: int| 0 <= j < spec_changes(from, to).len()
            && (#[trigger] spec_changes(from, to)[j]).0 == n && spec_changes(from, to)[j].1 == ChangeType::Deleted)
        <==> ((exists|i: int| 0 <= i < from.len() && (#[trigger] from[i]).0 == n)
            && !(exists|i: int| 0 <= i < to.len() && (#[trigger] to[i]).0 == n)),
{
    let fnames = distinct(state_names(from));
    let tnames = distinct(state_names(to));
    lemma_state_names(from, n);
    lemma_state_names(to, n);
    let fa = tnames.filter(|x: Seq<char>| !fnames.contains(x));
    let a = fa.map_values(|x: Seq<char>| (x, ChangeType::Added, None::<Seq<char>>, Some("[nuevo archivo]"@)));
    let fd = fnames.filter(|x: Seq<char>| !tnames.contains(x));
    let d = fd.map_values(|x: Seq<char>| (x, ChangeType::Deleted, Some("[archivo eliminado]"@), None::<Seq<char>>));
    let f = fnames.filter(|x: Seq<char>| tnames.contains(x) && content_of(from, x) != content_of(to, x));
    let m = f.map_values(|x: Seq<char>| modified_change(x, content_of(from, x), content_of(to, x)));
    let c = spec_changes(from, to);
    assert(c == a + d + m);
    if exists|j: int| 0 <= j < c.len() && (#[trigger] c[j]).0 == n && c[j].1 == ChangeType::Added {
        let j = choose|j: int| 0 <= j < c.len() && (#[trigger] c[j]).0 == n && c[j].1 == ChangeType::Added;
        if j < a.len() {
            assert(c[j] == a[j]);
            assert(a[j].0 == fa[j]);
            assert(!fnames.contains(fa[j]));
            assert(tnames.contains(fa[j])) by {
                lemma_filter_in(tnames, |x: Seq<char>| !fnames.contains(x), j);
            }
        } else if j < a.len() + d.len() {
            assert(c[j] == d[j - a.len()]);
        } else {
            assert(c[j] == m[j - a.len() - d.len()]);
        }
    }
    if tnames.contains(n) && !fnames.contains(n) {
        let q0 = choose|q: int| 0 <= q < tnames.len() && tnames[q] == n;
        assert(fa.contains(tnames[q0]));
        let q = choose|q: int| 0 <= q < fa.len() && fa[q] == n;
        assert(c[q] == a[q]);
    }
    if exists|j: int| 0 <= j < c.len() && (#[trigger] c[j]).0 == n && c[j].1 == ChangeType::Deleted {
        let j = choose|j: int| 0 <= j < c.len() && (#[trigger] c[j]).0 == n && c[j].1 == ChangeType::Deleted;
        if j < a.len() {
            assert(c[j] == a[j]);
        } else if j < a.len() + d.len() {
            let q = j - a.len();
            assert(c[j] == d[q]);
            assert(d[q].0 == fd[q]);
            assert(!tnames.contains(fd[q]));
            assert(fnames.contains(fd[q])) by {
                lemma_filter_in(fnames, |x: Seq<char>| !tnames.contains(x), q);
            }
        } else {
            assert(c[j] == m[j - a.len() - d.len()]);
        }
    }
    if fnames.contains(n) && !tnames.contains(n) {
        let q0 = choose|q: int| 0 <= q < fnames.len() && fnames[q] == n;
        assert(fd.contains(fnames[q0]));
        let q = choose|q: int| 0 <= q < fd.len() && fd[q] == n;
        let j = a.len() + q;
        assert(c[j] == d[q]);
    }
}

/// What a filter keeps comes from the sequence.
proof fn lemma_filter_in(s: Seq<Seq<char>>, pred: spec_fn(Seq<char>) -> bool, j: int)
    requires
        0 <= j < s.filter(pred).len(),
    ensures
        s.contains(s.filter(pred)[j]),
    decreases s.len(),
{
    reveal(Seq::filter);
    let d = s.drop_last();
    if pred(s.last()) && j == s.filter(pred).len() - 1 {
        assert(s[s.len() - 1] == s.last());
    } else {
        assert(s.filter(pred)[j] == d.filter(pred)[j]);
        lemma_filter_in(d, pred, j);
        let k = choose|k: int| 0 <= k < d.len() && d[k] == d.filter(pred)[j];
        assert(s[k] == d[k]);
    }
}

} // verus!
