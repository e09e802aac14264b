//! Table, image and link rules of the lint command (L009 to L014), and the
//! whole rule set on one document.

use vstd::prelude::*;
use crate::text::{
    chars_of, concat2, decimal, ends_with, find, lemma_split_nonempty, owned, parse_usize,
    push_str, replace_all, slice_to_vec, spec_contains, spec_decimal, spec_ends_with,
    spec_parse_unsigned, spec_replace, spec_split, spec_starts_with, spec_trim, spec_utf8_len,
    spec_utf8_width, split, starts_with, string_of, strs, trim, utf8_len, views, lines,
    spec_lines,
};
use crate::patterns::{
    cap_at, cap_group, captures_all, group, is_match, opt_strs, spec_captures_all, spec_group,
    spec_is_match,
    RE_IMAGE_EMPTY_ALT, RE_TABLE_ROW, RE_TABLE_SEPARATOR,
};
use crate::commands::lint::{
    all_in_file, fence, is_fence, issue, issues_view, rule_l001, rule_l002_scan, rule_l003, rule_l004,
    rule_l005, rule_l006_scan, rule_l007_scan, rule_l008, spec_lint, IssueView, LintCommand, LintIssue,
    LintSeverity,
};

verus! {

/// A line that, trimmed, is a table row.
pub open spec fn is_table_row(l: Seq<char>) -> bool {
    spec_is_match(RE_TABLE_ROW@, spec_trim(l))
}

/// A line that, trimmed, is a table separator row.
pub open spec fn is_table_sep(l: Seq<char>) -> bool {
    spec_is_match(RE_TABLE_SEPARATOR@, spec_trim(l))
}

/// One line of the L009 scan; the state is (inside a code block, inside a
/// table, issues so far). A table row outside code blocks that starts a
/// table must be followed by a separator row.
pub open spec fn l009_step(ls: Seq<Seq<char>>, i: int, st: (bool, bool, Seq<IssueView>)) -> (bool, bool, Seq<IssueView>) {
    let l = ls[i];
    if st.1 && is_table_row(l) {
        (st.0, true, st.2)
    } else if is_fence(spec_trim(l)) {
        (!st.0, false, st.2)
    } else if st.0 {
        (st.0, false, st.2)
    } else if is_table_row(l) {
        if i + 1 >= ls.len() || !is_table_sep(ls[i + 1]) {
            (st.0, true, st.2.push(("L009"@, "Tabla sin fila de header/separador"@, Some((i + 1) as usize),
                LintSeverity::Warning, false)))
        } else {
            (st.0, true, st.2)
        }
    } else {
        (st.0, false, st.2)
    }
}

/// The L009 scan over the first `n` lines.
pub open spec fn l009_scan(ls: Seq<Seq<char>>, n: nat) -> (bool, bool, Seq<IssueView>)
    decreases n,
{
    if n == 0 { (false, false, Seq::empty()) } else { l009_step(ls, n - 1, l009_scan(ls, (n - 1) as nat)) }
}

/// L009: tables without a header separator.
pub open spec fn rule_l009(ls: Seq<Seq<char>>) -> Seq<IssueView> {
    l009_scan(ls, ls.len()).2
}

/// L010: images with an empty alt text.
pub open spec fn rule_l010(ls: Seq<Seq<char>>) -> Seq<IssueView>
    decreases ls.len(),
{
    if ls.len() == 0 {
        Seq::empty()
    } else {
        let p = rule_l010(ls.drop_last());
        if spec_is_match(RE_IMAGE_EMPTY_ALT@, ls.last()) {
            p.push(("L010"@, "Imagen sin alt text"@, Some(ls.len() as usize), LintSeverity::Warning, false))
        } else {
            p
        }
    }
}

/// One line of the L011 scan; the state is (inside a table, line of its
/// first separator, issues so far). Every separator of a table after its
/// first is reported.
pub open spec fn l011_step(ls: Seq<Seq<char>>, i: int, st: (bool, Option<nat>, Seq<IssueView>)) -> (bool, Option<nat>, Seq<IssueView>) {
    let l = ls[i];
    if st.0 && is_table_sep(l) {
        match st.1 {
            None => (true, Some(i as nat), st.2),
            Some(f) => (true, Some(f), st.2.push(("L011"@,
                "Separador duplicado en tabla (primer sep línea "@ + spec_decimal(f + 1) + ")"@,
                Some((i + 1) as usize), LintSeverity::Error, true))),
        }
    } else if st.0 && is_table_row(l) {
        (true, st.1, st.2)
    } else if is_table_row(l) && !is_table_sep(l) {
        (true, None, st.2)
    } else {
        (false, None, st.2)
    }
}

/// The L011 scan over the first `n` lines.
pub open spec fn l011_scan(ls: Seq<Seq<char>>, n: nat) -> (bool, Option<nat>, Seq<IssueView>)
    decreases n,
{
    if n == 0 { (false, None, Seq::empty()) } else { l011_step(ls, n - 1, l011_scan(ls, (n - 1) as nat)) }
}

/// L011: repeated separators inside a table.
pub open spec fn rule_l011(ls: Seq<Seq<char>>) -> Seq<IssueView> {
    l011_scan(ls, ls.len()).2
}

/// Whether a line is a table row.
fn line_is_row(l: &Vec<char>) -> (r: bool)
    ensures
        r == is_table_row(l@),
{
    let t = trim(l.as_slice());
    is_match(RE_TABLE_ROW, string_of(&t).as_str())
}

/// Whether a line is a table separator row.
fn line_is_sep(l: &Vec<char>) -> (r: bool)
    ensures
        r == is_table_sep(l@),
{
    let t = trim(l.as_slice());
    is_match(RE_TABLE_SEPARATOR, string_of(&t).as_str())
}

/// The optional first separator line as a number.
pub open spec fn opt_nat(o: Option<usize>) -> Option<nat> {
    match o { Some(f) => Some(f as nat), None => None }
}

impl LintCommand {
    /// L009 on the lines of a document.
    pub fn rule_table_headers(&self, file: &str, ls: &Vec<Vec<char>>) -> (r: Vec<LintIssue>)
        requires
            ls@.len() < usize::MAX,
        ensures
            issues_view(r@) == rule_l009(views(ls@)),
            all_in_file(r@, file@),
    {
        let ghost lv = views(ls@);
        let mut inside = false;
        let mut in_table = false;
        let mut r: Vec<LintIssue> = Vec::new();
        let mut i: usize = 0;
        while i < ls.len()
            invariant
                i <= ls@.len(),
                ls@.len() < usize::MAX,
                lv == views(ls@),
                l009_scan(lv, i as nat) == (inside, in_table, issues_view(r@)),
                all_in_file(r@, file@),
            decreases ls@.len() - i,
        {
            assert(lv[i as int] == ls@[i as int]@);
            let row = line_is_row(&ls[i]);
            if in_table && row {
            } else {
                let t = trim(ls[i].as_slice());
                if fence(&t) {
                    inside = !inside;
                    in_table = false;
                } else if inside {
                    in_table = false;
                } else if row {
                    let missing = if i + 1 >= ls.len() {
                        true
                    } else {
                        assert(lv[i + 1] == ls@[i + 1]@);
                        !line_is_sep(&ls[i + 1])
                    };
                    if missing {
                        let ghost r0 = r@;
                        r.push(issue("L009", owned("Tabla sin fila de header/separador"), file, Some(i + 1), LintSeverity::Warning, false));
                        assert(issues_view(r@) =~= issues_view(r0).push(issues_view(r@).last()));
                    }
                    in_table = true;
                } else {
                    in_table = false;
                }
            }
            i = i + 1;
        }
        r
    }

    /// L010 on the lines of a document.
    pub fn rule_image_alt(&self, file: &str, ls: &Vec<Vec<char>>) -> (r: Vec<LintIssue>)
        requires
            ls@.len() < usize::MAX,
        ensures
            issues_view(r@) == rule_l010(views(ls@)),
            all_in_file(r@, file@),
    {
        let ghost lv = views(ls@);
        let mut r: Vec<LintIssue> = Vec::new();
        let mut i: usize = 0;
        while i < ls.len()
            invariant
                i <= ls@.len(),
                ls@.len() < usize::MAX,
                lv == views(ls@),
                issues_view(r@) == rule_l010(lv.subrange(0, i as int)),
                all_in_file(r@, file@),
            decreases ls@.len() - i,
        {
            let ghost sub = lv.subrange(0, i + 1);
            assert(sub.drop_last() =~= lv.subrange(0, i as int));
            assert(sub.last() == ls@[i as int]@);
            if is_match(RE_IMAGE_EMPTY_ALT, string_of(ls[i].as_slice()).as_str()) {
                let ghost r0 = r@;
                r.push(issue("L010", owned("Imagen sin alt text"), file, Some(i + 1), LintSeverity::Warning, false));
                assert(issues_view(r@) =~= issues_view(r0).push(issues_view(r@).last()));
            }
            i = i + 1;
        }
        assert(lv.subrange(0, ls@.len() as int) =~= lv);
        r
    }

    /// L011 on the lines of a document.
    pub fn rule_table_double_separator(&self, file: &str, ls: &Vec<Vec<char>>) -> (r: Vec<LintIssue>)
        requires
            ls@.len() < usize::MAX,
        ensures
            issues_view(r@) == rule_l011(views(ls@)),
            all_in_file(r@, file@),
    {
        let ghost lv = views(ls@);
        let mut in_table = false;
        let mut first: Option<usize> = None;
        let mut r: Vec<LintIssue> = Vec::new();
        let mut i: usize = 0;
        while i < ls.len()
            invariant
                i <= ls@.len(),
                ls@.len() < usize::MAX,
                lv == views(ls@),
                l011_scan(lv, i as nat) == (in_table, opt_nat(first), issues_view(r@)),
                first matches Some(f) ==> f < i,
                all_in_file(r@, file@),
            decreases ls@.len() - i,
        {
            assert(lv[i as int] == ls@[i as int]@);
            let sep = line_is_sep(&ls[i]);
            let row = line_is_row(&ls[i]);
            if in_table && sep {
                match first {
                    None => {
                        first = Some(i);
                    },
                    Some(f) => {
                        let mut m = owned("Separador duplicado en tabla (primer sep línea ");
                        push_str(&mut m, decimal(f + 1).as_str());
                        push_str(&mut m, ")");
                        let ghost r0 = r@;
                        r.push(issue("L011", m, file, Some(i + 1), LintSeverity::Error, true));
                        assert(issues_view(r@) =~= issues_view(r0).push(issues_view(r@).last()));
                    },
                }
            } else if in_table && row {
            } else if row && !sep {
                in_table = true;
                first = None;
            } else {
                in_table = false;
                first = None;
            }
            i = i + 1;
        }
        r
    }
}

/// Wikilink with an unescaped `|` (as written inside a table).
pub const WIKILINK_UNESCAPED: &'static str = r"\[\[([^\]\|\\]+)\|([^\]]+)\]\]";

/// Wikilink whose target carries the absolute project prefix.
pub const ABSOLUTE_WIKILINK: &'static str = r"\[\[Proyecto[^\]]*OnlyCarNLD/Datos/([^\]]+)\]\]";

/// L012 issues for the matches of one table line.
pub open spec fn l012_caps(caps: Seq<Seq<Option<Seq<char>>>>, line: nat) -> Seq<IssueView>
    decreases caps.len(),
{
    if caps.len() == 0 {
        Seq::empty()
    } else {
        let p = l012_caps(caps.drop_last(), line);
        match cap_group(caps.last(), 0) {
            Some(f) => if !spec_contains(f, "\\|"@) {
                p.push(("L012"@, "Wikilink con pipe sin escapar: "@ + f, Some(line as usize), LintSeverity::Error, true))
            } else {
                p
            },
            None => p,
        }
    }
}

/// L012: wikilinks with an unescaped alias pipe on table lines.
pub open spec fn rule_l012(ls: Seq<Seq<char>>) -> Seq<IssueView>
    decreases ls.len(),
{
    if ls.len() == 0 {
        Seq::empty()
    } else {
        let p = rule_l012(ls.drop_last());
        if spec_starts_with(spec_trim(ls.last()), "|"@) {
            p + l012_caps(spec_captures_all(WIKILINK_UNESCAPED@, ls.last()), ls.len())
        } else {
            p
        }
    }
}

/// The first characters of `s` that make exactly `b` UTF-8 bytes, if `b`
/// falls on a character boundary.
pub open spec fn take_bytes(s: Seq<char>, b: nat) -> Option<Seq<char>>
    decreases s.len(),
{
    if b == 0 {
        Some(Seq::empty())
    } else if s.len() == 0 {
        None
    } else if spec_utf8_width(s[0]) > b {
        None
    } else {
        match take_bytes(s.drop_first(), (b - spec_utf8_width(s[0])) as nat) {
            Some(t) => Some(seq![s[0]] + t),
            None => None,
        }
    }
}

/// The first 50 bytes of a match (all of it when shorter).
pub open spec fn l014_prefix(f: Seq<char>) -> Option<Seq<char>> {
    take_bytes(f, if spec_utf8_len(f) < 50 { spec_utf8_len(f) } else { 50 })
}

/// L014 issues for the matches of one line.
pub open spec fn l014_caps(caps: Seq<Seq<Option<Seq<char>>>>, line: nat) -> Seq<IssueView>
    decreases caps.len(),
{
    if caps.len() == 0 {
        Seq::empty()
    } else {
        let p = l014_caps(caps.drop_last(), line);
        match cap_group(caps.last(), 0) {
            Some(f) => match l014_prefix(f) {
                Some(t) => p.push(("L014"@, "Wikilink con path absoluto: "@ + t, Some(line as usize), LintSeverity::Info, false)),
                None => p,
            },
            None => p,
        }
    }
}

/// L014: wikilinks with the absolute project path.
pub open spec fn rule_l014(ls: Seq<Seq<char>>) -> Seq<IssueView>
    decreases ls.len(),
{
    if ls.len() == 0 {
        Seq::empty()
    } else {
        rule_l014(ls.drop_last()) + l014_caps(spec_captures_all(ABSOLUTE_WIKILINK@, ls.last()), ls.len())
    }
}

/// Every absolute wikilink is cut at a character boundary when it is
/// shortened to 50 bytes for its message.
pub open spec fn l014_defined(ls: Seq<Seq<char>>) -> bool {
    forall|i: int, k: int|
        0 <= i < ls.len() && 0 <= k < spec_captures_all(ABSOLUTE_WIKILINK@, ls[i]).len() ==>
            (cap_group(#[trigger] spec_captures_all(ABSOLUTE_WIKILINK@, ls[i])[k], 0) matches Some(f) ==> l014_prefix(f) is Some)
}

/// UTF-8 width of a character.
fn char_width(c: char) -> (w: usize)
    ensures
        w == spec_utf8_width(c),
{
    let n = c as u32;
    if n < 0x80 { 1 } else if n < 0x800 { 2 } else if n < 0x10000 { 3 } else { 4 }
}

/// `a` put in front of an optional text.
pub open spec fn prepend(a: Seq<char>, o: Option<Seq<char>>) -> Option<Seq<char>> {
    match o { Some(t) => Some(a + t), None => None }
}

/// The first characters of `s` making `b` bytes.
fn take_bytes_exec(s: &Vec<char>, b: usize) -> (r: Option<Vec<char>>)
    ensures
        match r {
            Some(t) => take_bytes(s@, b as nat) == Some(t@),
            None => take_bytes(s@, b as nat) is None,
        },
{
    let mut k: usize = 0;
    let mut rem: usize = b;
    assert(s@.subrange(0, 0) + s@.subrange(0, s@.len() as int) =~= s@);
    assert(s@.subrange(0, s@.len() as int) =~= s@);
    assert(prepend(Seq::<char>::empty(), take_bytes(s@, b as nat)) == take_bytes(s@, b as nat)) by {
        match take_bytes(s@, b as nat) {
            Some(t) => { assert(Seq::<char>::empty() + t =~= t); },
            None => {},
        }
    }
    assert(s@.subrange(0, 0) =~= Seq::<char>::empty());
    while rem > 0
        invariant
            k <= s@.len(),
            rem <= b,
            take_bytes(s@, b as nat) == prepend(s@.subrange(0, k as int), take_bytes(s@.subrange(k as int, s@.len() as int), rem as nat)),
        decreases rem,
    {
        if k >= s.len() {
            return None;
        }
        let w = char_width(s[k]);
        if w > rem {
            return None;
        }
        let ghost tail = s@.subrange(k as int, s@.len() as int);
        assert(tail.drop_first() =~= s@.subrange(k + 1, s@.len() as int));
        assert(tail[0] == s@[k as int]);
        proof {
            match take_bytes(s@.subrange(k + 1, s@.len() as int), (rem - w) as nat) {
                Some(t) => {
                    assert(s@.subrange(0, k as int) + (seq![s@[k as int]] + t) =~= s@.subrange(0, k + 1) + t);
                },
                None => {},
            }
        }
        rem = rem - w;
        k = k + 1;
    }
    let t = slice_to_vec(s.as_slice(), 0, k);
    assert(s@.subrange(0, k as int) + Seq::<char>::empty() =~= s@.subrange(0, k as int));
    Some(t)
}

/// L012 issues of one table line.
fn l012_line(file: &str, line: &Vec<char>, line_no: usize) -> (r: Vec<LintIssue>)
    ensures
        issues_view(r@) == l012_caps(spec_captures_all(WIKILINK_UNESCAPED@, line@), line_no as nat),
        all_in_file(r@, file@),
{
    let caps = captures_all(WIKILINK_UNESCAPED, string_of(line.as_slice()).as_str());
    let ghost cv = spec_captures_all(WIKILINK_UNESCAPED@, line@);
    let esc = chars_of("\\|");
    let mut r: Vec<LintIssue> = Vec::new();
    let mut k: usize = 0;
    while k < caps.len()
        invariant
            k <= caps@.len(),
            caps@.map_values(|c: Vec<Option<String>>| opt_strs(c@)) == cv,
            esc@ == "\\|"@,
            issues_view(r@) == l012_caps(cv.subrange(0, k as int), line_no as nat),
            all_in_file(r@, file@),
        decreases caps@.len() - k,
    {
        let ghost sub = cv.subrange(0, k + 1);
        assert(sub.drop_last() =~= cv.subrange(0, k as int));
        assert(sub.last() == opt_strs(caps@[k as int]@));
        match cap_at(&caps[k], 0) {
            Some(f) => {
                if find(&chars_of(f.as_str()), &esc).is_none() {
                    let mut m = owned("Wikilink con pipe sin escapar: ");
                    push_str(&mut m, f.as_str());
                    let ghost r0 = r@;
                    r.push(issue("L012", m, file, Some(line_no), LintSeverity::Error, true));
                    assert(issues_view(r@) =~= issues_view(r0).push(issues_view(r@).last()));
                }
            },
            None => {},
        }
        k = k + 1;
    }
    assert(cv.subrange(0, caps@.len() as int) =~= cv);
    r
}

/// L014 issues of one line.
fn l014_line(file: &str, line: &Vec<char>, line_no: usize) -> (r: Vec<LintIssue>)
    ensures
        issues_view(r@) == l014_caps(spec_captures_all(ABSOLUTE_WIKILINK@, line@), line_no as nat),
        all_in_file(r@, file@),
{
    let caps = captures_all(ABSOLUTE_WIKILINK, string_of(line.as_slice()).as_str());
    let ghost cv = spec_captures_all(ABSOLUTE_WIKILINK@, line@);
    let mut r: Vec<LintIssue> = Vec::new();
    let mut k: usize = 0;
    while k < caps.len()
        invariant
            k <= caps@.len(),
            caps@.map_values(|c: Vec<Option<String>>| opt_strs(c@)) == cv,
            issues_view(r@) == l014_caps(cv.subrange(0, k as int), line_no as nat),
            all_in_file(r@, file@),
        decreases caps@.len() - k,
    {
        let ghost sub = cv.subrange(0, k + 1);
        assert(sub.drop_last() =~= cv.subrange(0, k as int));
        assert(sub.last() == opt_strs(caps@[k as int]@));
        match cap_at(&caps[k], 0) {
            Some(f) => {
                let fv = chars_of(f.as_str());
                let n = utf8_len(fv.as_slice());
                let b: usize = if n < 50 { n } else { 50 };
                match take_bytes_exec(&fv, b) {
                    Some(t) => {
                        let mut m = owned("Wikilink con path absoluto: ");
                        push_str(&mut m, string_of(t.as_slice()).as_str());
                        let ghost r0 = r@;
                        r.push(issue("L014", m, file, Some(line_no), LintSeverity::Info, false));
                        assert(issues_view(r@) =~= issues_view(r0).push(issues_view(r@).last()));
                    },
                    None => {},
                }
            },
            None => {},
        }
        k = k + 1;
    }
    assert(cv.subrange(0, caps@.len() as int) =~= cv);
    r
}

/// Appends issues of one line.
fn extend_issues(r: &mut Vec<LintIssue>, x: Vec<LintIssue>, Ghost(file): Ghost<Seq<char>>)
    requires
        all_in_file(old(r)@, file),
        all_in_file(x@, file),
    ensures
        issues_view(final(r)@) == issues_view(old(r)@) + issues_view(x@),
        all_in_file(final(r)@, file),
{
    let mut x = x;
    crate::commands::lint::append_issues(r, &mut x, Ghost(file));
}

impl LintCommand {
    /// L012 on the lines of a document.
    pub fn rule_unescaped_pipe_in_table(&self, file: &str, ls: &Vec<Vec<char>>) -> (r: Vec<LintIssue>)
        requires
            ls@.len() < usize::MAX,
        ensures
            issues_view(r@) == rule_l012(views(ls@)),
            all_in_file(r@, file@),
    {
        let ghost lv = views(ls@);
        let bar = chars_of("|");
        let mut r: Vec<LintIssue> = Vec::new();
        let mut i: usize = 0;
        while i < ls.len()
            invariant
                i <= ls@.len(),
                ls@.len() < usize::MAX,
                lv == views(ls@),
                bar@ == "|"@,
                issues_view(r@) == rule_l012(lv.subrange(0, i as int)),
                all_in_file(r@, file@),
            decreases ls@.len() - i,
        {
            let ghost sub = lv.subrange(0, i + 1);
            assert(sub.drop_last() =~= lv.subrange(0, i as int));
            assert(sub.last() == ls@[i as int]@);
            let t = trim(ls[i].as_slice());
            if starts_with(&t, &bar) {
                let x = l012_line(file, &ls[i], i + 1);
                extend_issues(&mut r, x, Ghost(file@));
            }
            i = i + 1;
        }
        assert(lv.subrange(0, ls@.len() as int) =~= lv);
        r
    }

    /// L014 on the lines of a document.
    pub fn rule_wikilink_absolute_path(&self, file: &str, ls: &Vec<Vec<char>>) -> (r: Vec<LintIssue>)
        requires
            ls@.len() < usize::MAX,
            l014_defined(views(ls@)),
        ensures
            issues_view(r@) == rule_l014(views(ls@)),
            all_in_file(r@, file@),
    {
        let ghost lv = views(ls@);
        let mut r: Vec<LintIssue> = Vec::new();
        let mut i: usize = 0;
        while i < ls.len()
            invariant
                i <= ls@.len(),
                ls@.len() < usize::MAX,
                lv == views(ls@),
                issues_view(r@) == rule_l014(lv.subrange(0, i as int)),
                all_in_file(r@, file@),
            decreases ls@.len() - i,
        {
            let ghost sub = lv.subrange(0, i + 1);
            assert(sub.drop_last() =~= lv.subrange(0, i as int));
            assert(sub.last() == ls@[i as int]@);
            let x = l014_line(file, &ls[i], i + 1);
            extend_issues(&mut r, x, Ghost(file@));
            i = i + 1;
        }
        assert(lv.subrange(0, ls@.len() as int) =~= lv);
        r
    }
}

/// Header of a table with a `Nietos` column.
pub const NIETOS_HEADER: &'static str = r"\|\s*Nietos\s*\|";

/// Start of a wikilink, capturing its target up to `]` or `|`.
pub const WIKILINK_TARGET: &'static str = r"\[\[([^\]\|]+)";

/// Index of the first column (from `k`) whose trimmed text mentions
/// `Nietos`; 0 when none does.
pub open spec fn nietos_col_from(parts: Seq<Seq<char>>, k: int) -> nat
    decreases parts.len() - k,
{
    if k < 0 || k >= parts.len() {
        0
    } else if spec_contains(spec_trim(parts[k]), "Nietos"@) {
        k as nat
    } else {
        nietos_col_from(parts, k + 1)
    }
}

/// A file name of a descendant of `prefix`: `prefix.` then anything, ending
/// in `.md`.
pub open spec fn is_descendant_file(name: Seq<char>, prefix: Seq<char>) -> bool {
    spec_starts_with(name, prefix + "."@) && spec_ends_with(name, ".md"@)
}

/// Number of file names of descendants of `prefix`.
pub open spec fn count_desc(names: Seq<Seq<char>>, prefix: Seq<char>) -> nat
    decreases names.len(),
{
    if names.len() == 0 {
        0
    } else {
        count_desc(names.drop_last(), prefix) + if is_descendant_file(names.last(), prefix) { 1nat } else { 0nat }
    }
}

/// `s` without its trailing dots.
pub open spec fn trim_end_dots(s: Seq<char>) -> Seq<char>
    decreases s.len(),
{
    if s.len() > 0 && s.last() == '.' { trim_end_dots(s.drop_last()) } else { s }
}

/// The L013 issue of one (trimmed) table row: the value in the `Nietos`
/// column must equal the number of descendant files of the document the
/// row links to in its first column.
pub open spec fn l013_row(row: Seq<char>, line: nat, col: nat, names: Seq<Seq<char>>) -> Seq<IssueView> {
    let cols = spec_split(spec_replace(row, "\\|"@, "§PIPE§"@), '|');
    if cols.len() > col {
        let claimed_text = spec_replace(spec_trim(cols[col as int]), "§PIPE§"@, "\\|"@);
        let id_col = if cols.len() > 1 { cols[1] } else { Seq::<char>::empty() };
        match spec_group(WIKILINK_TARGET@, id_col, 1) {
            Some(raw) => {
                let target = spec_split(spec_replace(raw, "§PIPE§"@, "|"@), '|')[0];
                let child = trim_end_dots(spec_split(target, ' ')[0]);
                let actual = count_desc(names, child);
                let claimed = match spec_parse_unsigned(claimed_text, usize::MAX as nat) { Some(v) => v, None => 0 };
                if actual != claimed {
                    seq![("L013"@, "Nietos="@ + spec_decimal(claimed) + " incorrecto (real="@ + spec_decimal(actual)
                        + ") para "@ + target, Some(line as usize), LintSeverity::Warning, true)]
                } else {
                    Seq::empty()
                }
            },
            None => Seq::empty(),
        }
    } else {
        Seq::empty()
    }
}

/// L013 issues of the table rows from line `j` on, up to the first line
/// that (trimmed) does not start with `|`.
pub open spec fn l013_rows(ls: Seq<Seq<char>>, j: int, col: nat, names: Seq<Seq<char>>) -> Seq<IssueView>
    decreases ls.len() - j,
{
    if j < 0 || j >= ls.len() {
        Seq::empty()
    } else {
        let row = spec_trim(ls[j]);
        if !spec_starts_with(row, "|"@) {
            Seq::empty()
        } else {
            l013_row(row, (j + 1) as nat, col, names) + l013_rows(ls, j + 1, col, names)
        }
    }
}

/// The L013 scan over the first `n` lines: for each header with a
/// `Nietos` column, the rows that follow its separator.
pub open spec fn l013_scan(ls: Seq<Seq<char>>, names: Seq<Seq<char>>, n: nat) -> Seq<IssueView>
    decreases n,
{
    if n == 0 {
        Seq::empty()
    } else {
        let p = l013_scan(ls, names, (n - 1) as nat);
        let idx = n - 1;
        if spec_is_match(NIETOS_HEADER@, ls[idx]) {
            p + l013_rows(ls, idx + 2, nietos_col_from(spec_split(ls[idx], '|'), 0), names)
        } else {
            p
        }
    }
}

/// L013: `Nietos` counts that differ from the descendant files found among
/// `names` (the file names of the data directory).
pub open spec fn rule_l013(ls: Seq<Seq<char>>, names: Seq<Seq<char>>) -> Seq<IssueView> {
    l013_scan(ls, names, ls.len())
}

/// The `Nietos` column of a header split at `|`.
fn nietos_col(parts: &Vec<Vec<char>>) -> (n: usize)
    ensures
        n == nietos_col_from(views(parts@), 0),
{
    let ghost pv = views(parts@);
    let word = chars_of("Nietos");
    let mut k: usize = 0;
    while k < parts.len()
        invariant
            k <= parts@.len(),
            pv == views(parts@),
            word@ == "Nietos"@,
            nietos_col_from(pv, 0) == nietos_col_from(pv, k as int),
        decreases parts@.len() - k,
    {
        assert(pv[k as int] == parts@[k as int]@);
        if find(&trim(parts[k].as_slice()), &word).is_some() {
            return k;
        }
        k = k + 1;
    }
    0
}

/// `s` without its trailing dots.
fn trim_end_dots_exec(s: &Vec<char>) -> (r: Vec<char>)
    ensures
        r@ == trim_end_dots(s@),
{
    let mut b: usize = s.len();
    assert(s@.subrange(0, b as int) =~= s@);
    while b > 0 && s[b - 1] == '.'
        invariant
            b <= s@.len(),
            trim_end_dots(s@) == trim_end_dots(s@.subrange(0, b as int)),
        decreases b,
    {
        assert(s@.subrange(0, b as int).drop_last() =~= s@.subrange(0, b - 1));
        b = b - 1;
    }
    slice_to_vec(s.as_slice(), 0, b)
}

/// Number of descendant file names of `prefix`.
fn count_desc_exec(names: &Vec<String>, prefix: &str) -> (n: usize)
    ensures
        n == count_desc(strs(names@), prefix@),
{
    let ghost nv = strs(names@);
    let head = chars_of(concat2(prefix, ".").as_str());
    let ext = chars_of(".md");
    let mut n: usize = 0;
    let mut i: usize = 0;
    while i < names.len()
        invariant
            i <= names@.len(),
            nv == strs(names@),
            head@ == prefix@ + "."@,
            ext@ == ".md"@,
            n <= i,
            n == count_desc(nv.subrange(0, i as int), prefix@),
        decreases names@.len() - i,
    {
        let ghost sub = nv.subrange(0, i + 1);
        assert(sub.drop_last() =~= nv.subrange(0, i as int));
        assert(sub.last() == names@[i as int]@);
        let c = chars_of(names[i].as_str());
        if starts_with(&c, &head) && ends_with(&c, &ext) {
            n = n + 1;
        }
        i = i + 1;
    }
    assert(nv.subrange(0, names@.len() as int) =~= nv);
    n
}

/// The L013 issue of one trimmed row.
fn l013_row_exec(file: &str, row: &Vec<char>, line_no: usize, col: usize, names: &Vec<String>) -> (r: Vec<LintIssue>)
    ensures
        issues_view(r@) == l013_row(row@, line_no as nat, col as nat, strs(names@)),
        all_in_file(r@, file@),
{
    let mut r: Vec<LintIssue> = Vec::new();
    let esc = chars_of("\\|");
    let mark = chars_of("§PIPE§");
    proof {
        reveal_strlit("\\|");
        reveal_strlit("§PIPE§");
    }
    let masked = replace_all(row.as_slice(), &esc, &mark);
    let cols = split(&masked, '|');
    if cols.len() > col {
        assert(views(cols@)[col as int] == cols@[col as int]@);
        let claimed_text = replace_all(&trim(cols[col].as_slice()), &mark, &esc);
        let id_col: Vec<char> = if cols.len() > 1 {
            assert(views(cols@)[1] == cols@[1]@);
            let v = slice_to_vec(cols[1].as_slice(), 0, cols[1].len());
            assert(cols@[1]@.subrange(0, cols@[1]@.len() as int) =~= cols@[1]@);
            v
        } else {
            Vec::new()
        };
        match group(WIKILINK_TARGET, string_of(&id_col).as_str(), 1) {
            Some(raw) => {
                let clean = replace_all(&chars_of(raw.as_str()), &mark, &chars_of("|"));
                let parts = split(&clean, '|');
                proof {
                    lemma_split_nonempty(clean@, '|');
                }
                assert(views(parts@)[0] == parts@[0]@);
                let words = split(parts[0].as_slice(), ' ');
                proof {
                    lemma_split_nonempty(parts@[0]@, ' ');
                }
                assert(views(words@)[0] == words@[0]@);
                let child = trim_end_dots_exec(&words[0]);
                let actual = count_desc_exec(names, string_of(&child).as_str());
                let claimed: usize = match parse_usize(string_of(&claimed_text).as_str()) {
                    Some(v) => v,
                    None => 0,
                };
                if actual != claimed {
                    let mut m = owned("Nietos=");
                    push_str(&mut m, decimal(claimed).as_str());
                    push_str(&mut m, " incorrecto (real=");
                    push_str(&mut m, decimal(actual).as_str());
                    push_str(&mut m, ") para ");
                    push_str(&mut m, string_of(parts[0].as_slice()).as_str());
                    r.push(issue("L013", m, file, Some(line_no), LintSeverity::Warning, true));
                }
            },
            None => {},
        }
    }
    assert(issues_view(r@) =~= l013_row(row@, line_no as nat, col as nat, strs(names@)));
    r
}

/// The L013 issues of the rows from line `start` on.
fn l013_rows_exec(file: &str, ls: &Vec<Vec<char>>, start: usize, col: usize, names: &Vec<String>) -> (r: Vec<LintIssue>)
    requires
        ls@.len() < usize::MAX,
    ensures
        issues_view(r@) == l013_rows(views(ls@), start as int, col as nat, strs(names@)),
        all_in_file(r@, file@),
{
    let ghost lv = views(ls@);
    let ghost nv = strs(names@);
    let bar = chars_of("|");
    let mut r: Vec<LintIssue> = Vec::new();
    let mut j: usize = start;
    assert(issues_view(r@) + l013_rows(lv, j as int, col as nat, nv) =~= l013_rows(lv, start as int, col as nat, nv));
    while j < ls.len()
        invariant
            ls@.len() < usize::MAX,
            lv == views(ls@),
            nv == strs(names@),
            bar@ == "|"@,
            issues_view(r@) + l013_rows(lv, j as int, col as nat, nv) == l013_rows(lv, start as int, col as nat, nv),
            all_in_file(r@, file@),
        decreases ls@.len() - j,
    {
        assert(lv[j as int] == ls@[j as int]@);
        let row = trim(ls[j].as_slice());
        if !starts_with(&row, &bar) {
            assert(issues_view(r@) + Seq::<IssueView>::empty() =~= issues_view(r@));
            return r;
        }
        let x = l013_row_exec(file, &row, j + 1, col, names);
        let ghost r0 = issues_view(r@);
        let ghost rest = l013_rows(lv, j + 1, col as nat, nv);
        extend_issues(&mut r, x, Ghost(file@));
        assert(issues_view(r@) + rest =~= r0 + (issues_view(x@) + rest));
        j = j + 1;
    }
    assert(issues_view(r@) + Seq::<IssueView>::empty() =~= issues_view(r@));
    r
}

impl LintCommand {
    /// Number of descendant files of `prefix` among the file names of the
    /// data directory: names that start with `prefix.` and end in `.md`.
    pub fn count_descendants(&self, names: &Vec<String>, prefix: &str) -> (n: usize)
        ensures
            n == count_desc(strs(names@), prefix@),
    {
        count_desc_exec(names, prefix)
    }

    /// L013 on the lines of a document, against the file names of the data
    /// directory.
    pub fn rule_nietos_mismatch(&self, file: &str, ls: &Vec<Vec<char>>, names: &Vec<String>) -> (r: Vec<LintIssue>)
        requires
            ls@.len() < usize::MAX,
        ensures
            issues_view(r@) == rule_l013(views(ls@), strs(names@)),
            all_in_file(r@, file@),
    {
        let ghost lv = views(ls@);
        let ghost nv = strs(names@);
        let mut r: Vec<LintIssue> = Vec::new();
        let mut i: usize = 0;
        while i < ls.len()
            invariant
                i <= ls@.len(),
                ls@.len() < usize::MAX,
                lv == views(ls@),
                nv == strs(names@),
                issues_view(r@) == l013_scan(lv, nv, i as nat),
                all_in_file(r@, file@),
            decreases ls@.len() - i,
        {
            assert(lv[i as int] == ls@[i as int]@);
            if is_match(NIETOS_HEADER, string_of(ls[i].as_slice()).as_str()) {
                let parts = split(ls[i].as_slice(), '|');
                let col = nietos_col(&parts);
                let x = l013_rows_exec(file, ls, i + 2, col, names);
                extend_issues(&mut r, x, Ghost(file@));
            }
            i = i + 1;
        }
        r
    }
}

/// All the rules (L001 to L014) on a document, in rule order, each run when
/// the rule filter allows it; `names` are the file names of the data
/// directory (for L013).
pub open spec fn spec_lint_file(filter: Option<Seq<char>>, file: Seq<char>, content: Seq<char>, names: Seq<Seq<char>>) -> Seq<IssueView> {
    let ls = spec_lines(content);
    let on = |code: Seq<char>| match filter { Some(f) => f == code, None => true };
    spec_lint(filter, file, content)
        + (if on("L009"@) { rule_l009(ls) } else { Seq::empty() })
        + (if on("L010"@) { rule_l010(ls) } else { Seq::empty() })
        + (if on("L011"@) { rule_l011(ls) } else { Seq::empty() })
        + (if on("L012"@) { rule_l012(ls) } else { Seq::empty() })
        + (if on("L013"@) { rule_l013(ls, names) } else { Seq::empty() })
        + (if on("L014"@) { rule_l014(ls) } else { Seq::empty() })
}

impl LintCommand {
    /// Every rule on a document, as the rule filter allows.
    pub fn lint_file(&self, file: &str, content: &str, names: &Vec<String>) -> (r: Vec<LintIssue>)
        requires
            spec_lines(content@).len() < usize::MAX,
            forall|k: int| 0 <= k < spec_lines(content@).len() ==> spec_utf8_len(#[trigger] spec_lines(content@)[k]) <= usize::MAX,
            l014_defined(spec_lines(content@)),
        ensures
            issues_view(r@) == spec_lint_file(match self.rule { Some(f) => Some(f@), None => None }, file@, content@, strs(names@)),
            all_in_file(r@, file@),
    {
        let mut r = self.lint_basic(file, content);
        let ls = lines(&chars_of(content));
        let ghost f = match &self.rule { Some(f) => Some(f@), None => None::<Seq<char>> };
        let ghost a0 = issues_view(r@);
        if self.should_run_rule("L009") { let x = self.rule_table_headers(file, &ls); extend_issues(&mut r, x, Ghost(file@)); }
        let ghost a1 = issues_view(r@);
        if self.should_run_rule("L010") { let x = self.rule_image_alt(file, &ls); extend_issues(&mut r, x, Ghost(file@)); }
        let ghost a2 = issues_view(r@);
        if self.should_run_rule("L011") { let x = self.rule_table_double_separator(file, &ls); extend_issues(&mut r, x, Ghost(file@)); }
        let ghost a3 = issues_view(r@);
        if self.should_run_rule("L012") { let x = self.rule_unescaped_pipe_in_table(file, &ls); extend_issues(&mut r, x, Ghost(file@)); }
        let ghost a4 = issues_view(r@);
        if self.should_run_rule("L013") { let x = self.rule_nietos_mismatch(file, &ls, names); extend_issues(&mut r, x, Ghost(file@)); }
        let ghost a5 = issues_view(r@);
        if self.should_run_rule("L014") { let x = self.rule_wikilink_absolute_path(file, &ls); extend_issues(&mut r, x, Ghost(file@)); }
        proof {
            reveal_strlit("L009");
            reveal_strlit("L010");
            reveal_strlit("L011");
            reveal_strlit("L012");
            reveal_strlit("L013");
            reveal_strlit("L014");
            assert(issues_view(r@) =~= spec_lint_file(f, file@, content@, strs(names@)));
        }
        r
    }
}

/// Every absolute wikilink of one line can be shortened to 50 bytes at a
/// character boundary.
pub open spec fn l014_line_ok(line: Seq<char>) -> bool {
    forall|k: int| 0 <= k < spec_captures_all(ABSOLUTE_WIKILINK@, line).len() ==>
        (cap_group(#[trigger] spec_captures_all(ABSOLUTE_WIKILINK@, line)[k], 0) matches Some(f) ==> l014_prefix(f) is Some)
}

/// The lines of a document are fewer than the largest `usize`, and each is
/// shorter in bytes.
pub open spec fn lines_fit(ls: Seq<Seq<char>>) -> bool {
    &&& ls.len() < usize::MAX
    &&& forall|k: int| 0 <= k < ls.len() ==> spec_utf8_len(#[trigger] ls[k]) < usize::MAX
}

fn l014_line_check(line: &Vec<char>) -> (r: bool)
    ensures
        r == l014_line_ok(line@),
{
    let caps = captures_all(ABSOLUTE_WIKILINK, string_of(line.as_slice()).as_str());
    let ghost cv = spec_captures_all(ABSOLUTE_WIKILINK@, line@);
    let mut k: usize = 0;
    while k < caps.len()
        invariant
            k <= caps@.len(),
            caps@.map_values(|c: Vec<Option<String>>| opt_strs(c@)) == cv,
            cv == spec_captures_all(ABSOLUTE_WIKILINK@, line@),
            forall|j: int| 0 <= j < k ==> (cap_group(#[trigger] cv[j], 0) matches Some(f) ==> l014_prefix(f) is Some),
        decreases caps@.len() - k,
    {
        assert(cv[k as int] == opt_strs(caps@[k as int]@));
        match cap_at(&caps[k], 0) {
            Some(f) => {
                let fv = chars_of(f.as_str());
                let n = utf8_len(fv.as_slice());
                let b: usize = if n < 50 { n } else { 50 };
                match take_bytes_exec(&fv, b) {
                    Some(_) => {},
                    None => {
                        proof {
                            assert(fv@ == f@);
                            assert(cap_group(cv[k as int], 0) == Some(f@));
                            assert(l014_prefix(f@) is None);
                            assert(!l014_line_ok(line@));
                        }
                        return false;
                    },
                }
            },
            None => {},
        }
        k = k + 1;
    }
    true
}

impl LintCommand {
    /// Every rule on a document, as the rule filter allows; `None` where an
    /// absolute wikilink cannot be shortened to 50 bytes at a character
    /// boundary (or the document is too large to count), on which the rule
    /// L014 has no message to give.
    pub fn lint_file_checked(&self, file: &str, content: &str, names: &Vec<String>) -> (r: Option<Vec<LintIssue>>)
        ensures
            match r {
                Some(v) => issues_view(v@) == spec_lint_file(match self.rule { Some(f) => Some(f@), None => None }, file@, content@, strs(names@))
                    && all_in_file(v@, file@),
                None => !(l014_defined(spec_lines(content@)) && lines_fit(spec_lines(content@))),
            },
    {
        let ls = lines(&chars_of(content));
        let ghost lv = views(ls@);
        assert(lv == spec_lines(content@));
        if ls.len() == usize::MAX {
            return None;
        }
        let mut i: usize = 0;
        while i < ls.len()
            invariant
                i <= ls@.len(),
                ls@.len() < usize::MAX,
                lv == views(ls@),
                lv == spec_lines(content@),
                forall|j: int| 0 <= j < i ==> l014_line_ok(#[trigger] lv[j]),
                forall|j: int| 0 <= j < i ==> spec_utf8_len(#[trigger] lv[j]) < usize::MAX,
            decreases ls@.len() - i,
        {
            assert(lv[i as int] == ls@[i as int]@);
            if utf8_len(ls[i].as_slice()) == usize::MAX {
                proof {
                    assert(spec_utf8_len(lv[i as int]) >= usize::MAX);
                    assert(!lines_fit(lv));
                    assert(!lines_fit(spec_lines(content@)));
                }
                return None;
            }
            if !l014_line_check(&ls[i]) {
                proof {
                    let line = lv[i as int];
                    let k = choose|k: int| 0 <= k < spec_captures_all(ABSOLUTE_WIKILINK@, line).len() &&
                        !(cap_group(#[trigger] spec_captures_all(ABSOLUTE_WIKILINK@, line)[k], 0) matches Some(f) ==> l014_prefix(f) is Some);
                    assert(!l014_defined(lv));
                    assert(!l014_defined(spec_lines(content@)));
                }
                return None;
            }
            i = i + 1;
        }
        proof {
            assert forall|a: int, k: int|
                0 <= a < lv.len() && 0 <= k < spec_captures_all(ABSOLUTE_WIKILINK@, lv[a]).len() implies
                (cap_group(#[trigger] spec_captures_all(ABSOLUTE_WIKILINK@, lv[a])[k], 0) matches Some(f) ==> l014_prefix(f) is Some) by {
                assert(l014_line_ok(lv[a]));
            }
        }
        Some(self.lint_file(file, content, names))
    }
}

/// Every issue of a list carries the code `code`.
pub open spec fn all_code(v: Seq<IssueView>, code: Seq<char>) -> bool {
    forall|k: int| 0 <= k < v.len() ==> (#[trigger] v[k]).0 == code
}

proof fn lemma_concat_code(a: Seq<IssueView>, b: Seq<IssueView>, code: Seq<char>)
    requires
        all_code(a, code),
        all_code(b, code),
    ensures
        all_code(a + b, code),
{
    assert forall|k: int| 0 <= k < (a + b).len() implies (#[trigger] (a + b)[k]).0 == code by {
        if k < a.len() {
            assert((a + b)[k] == a[k]);
        } else {
            assert((a + b)[k] == b[k - a.len()]);
        }
    }
}

proof fn lemma_push_code(a: Seq<IssueView>, x: IssueView, code: Seq<char>)
    requires
        all_code(a, code),
        x.0 == code,
    ensures
        all_code(a.push(x), code),
{
    assert forall|k: int| 0 <= k < a.push(x).len() implies (#[trigger] a.push(x)[k]).0 == code by {
        if k < a.len() {
            assert(a.push(x)[k] == a[k]);
        }
    }
}

proof fn lemma_l002_code(ls: Seq<Seq<char>>)
    ensures
        all_code(rule_l002_scan(ls).2, "L002"@),
    decreases ls.len(),
{
    if ls.len() > 0 {
        lemma_l002_code(ls.drop_last());
        let p = rule_l002_scan(ls.drop_last()).2;
        assert forall|x: IssueView| x.0 == "L002"@ implies all_code(#[trigger] p.push(x), "L002"@) by {
            lemma_push_code(p, x, "L002"@);
        }
    }
}

proof fn lemma_l003_code(ls: Seq<Seq<char>>)
    ensures
        all_code(rule_l003(ls), "L003"@),
    decreases ls.len(),
{
    if ls.len() > 0 {
        lemma_l003_code(ls.drop_last());
        let p = rule_l003(ls.drop_last());
        assert forall|x: IssueView| x.0 == "L003"@ implies all_code(#[trigger] p.push(x), "L003"@) by {
            lemma_push_code(p, x, "L003"@);
        }
    }
}

proof fn lemma_l005_code(ls: Seq<Seq<char>>)
    ensures
        all_code(rule_l005(ls), "L005"@),
    decreases ls.len(),
{
    if ls.len() > 0 {
        lemma_l005_code(ls.drop_last());
        let p = rule_l005(ls.drop_last());
        assert forall|x: IssueView| x.0 == "L005"@ implies all_code(#[trigger] p.push(x), "L005"@) by {
            lemma_push_code(p, x, "L005"@);
        }
    }
}

proof fn lemma_l006_code(ls: Seq<Seq<char>>)
    ensures
        all_code(rule_l006_scan(ls).1, "L006"@),
    decreases ls.len(),
{
    if ls.len() > 0 {
        lemma_l006_code(ls.drop_last());
        let p = rule_l006_scan(ls.drop_last()).1;
        assert forall|x: IssueView| x.0 == "L006"@ implies all_code(#[trigger] p.push(x), "L006"@) by {
            lemma_push_code(p, x, "L006"@);
        }
    }
}

proof fn lemma_l007_code(ls: Seq<Seq<char>>)
    ensures
        all_code(rule_l007_scan(ls).2, "L007"@),
    decreases ls.len(),
{
    if ls.len() > 0 {
        lemma_l007_code(ls.drop_last());
        let p = rule_l007_scan(ls.drop_last()).2;
        assert forall|x: IssueView| x.0 == "L007"@ implies all_code(#[trigger] p.push(x), "L007"@) by {
            lemma_push_code(p, x, "L007"@);
        }
    }
}

proof fn lemma_l009_code(ls: Seq<Seq<char>>, n: nat)
    ensures
        all_code(l009_scan(ls, n).2, "L009"@),
    decreases n,
{
    if n > 0 {
        lemma_l009_code(ls, (n - 1) as nat);
        let p = l009_scan(ls, (n - 1) as nat).2;
        assert forall|x: IssueView| x.0 == "L009"@ implies all_code(#[trigger] p.push(x), "L009"@) by {
            lemma_push_code(p, x, "L009"@);
        }
    }
}

proof fn lemma_l010_code(ls: Seq<Seq<char>>)
    ensures
        all_code(rule_l010(ls), "L010"@),
    decreases ls.len(),
{
    if ls.len() > 0 {
        lemma_l010_code(ls.drop_last());
        let p = rule_l010(ls.drop_last());
        assert forall|x: IssueView| x.0 == "L010"@ implies all_code(#[trigger] p.push(x), "L010"@) by {
            lemma_push_code(p, x, "L010"@);
        }
    }
}

proof fn lemma_l011_code(ls: Seq<Seq<char>>, n: nat)
    ensures
        all_code(l011_scan(ls, n).2, "L011"@),
    decreases n,
{
    if n > 0 {
        lemma_l011_code(ls, (n - 1) as nat);
        let p = l011_scan(ls, (n - 1) as nat).2;
        assert forall|x: IssueView| x.0 == "L011"@ implies all_code(#[trigger] p.push(x), "L011"@) by {
            lemma_push_code(p, x, "L011"@);
        }
    }
}

proof fn lemma_l012_caps_code(caps: Seq<Seq<Option<Seq<char>>>>, line: nat)
    ensures
        all_code(l012_caps(caps, line), "L012"@),
    decreases caps.len(),
{
    if caps.len() > 0 {
        lemma_l012_caps_code(caps.drop_last(), line);
        let p = l012_caps(caps.drop_last(), line);
        assert forall|x: IssueView| x.0 == "L012"@ implies all_code(#[trigger] p.push(x), "L012"@) by {
            lemma_push_code(p, x, "L012"@);
        }
    }
}

proof fn lemma_l012_code(ls: Seq<Seq<char>>)
    ensures
        all_code(rule_l012(ls), "L012"@),
    decreases ls.len(),
{
    if ls.len() > 0 {
        lemma_l012_code(ls.drop_last());
        lemma_l012_caps_code(spec_captures_all(WIKILINK_UNESCAPED@, ls.last()), ls.len());
        lemma_concat_code(rule_l012(ls.drop_last()), l012_caps(spec_captures_all(WIKILINK_UNESCAPED@, ls.last()), ls.len()), "L012"@);
    }
}

proof fn lemma_l013_rows_code(ls: Seq<Seq<char>>, j: int, col: nat, names: Seq<Seq<char>>)
    ensures
        all_code(l013_rows(ls, j, col, names), "L013"@),
    decreases ls.len() - j,
{
    if 0 <= j < ls.len() && spec_starts_with(spec_trim(ls[j]), "|"@) {
        lemma_l013_rows_code(ls, j + 1, col, names);
        let row = l013_row(spec_trim(ls[j]), (j + 1) as nat, col, names);
        assert(all_code(row, "L013"@));
        lemma_concat_code(row, l013_rows(ls, j + 1, col, names), "L013"@);
    }
}

proof fn lemma_l013_code(ls: Seq<Seq<char>>, names: Seq<Seq<char>>, n: nat)
    ensures
        all_code(l013_scan(ls, names, n), "L013"@),
    decreases n,
{
    if n > 0 {
        lemma_l013_code(ls, names, (n - 1) as nat);
        let idx = n - 1;
        let rows = l013_rows(ls, idx + 2, nietos_col_from(spec_split(ls[idx], '|'), 0), names);
        lemma_l013_rows_code(ls, idx + 2, nietos_col_from(spec_split(ls[idx], '|'), 0), names);
        lemma_concat_code(l013_scan(ls, names, (n - 1) as nat), rows, "L013"@);
    }
}

proof fn lemma_l014_caps_code(caps: Seq<Seq<Option<Seq<char>>>>, line: nat)
    ensures
        all_code(l014_caps(caps, line), "L014"@),
    decreases caps.len(),
{
    if caps.len() > 0 {
        lemma_l014_caps_code(caps.drop_last(), line);
        let p = l014_caps(caps.drop_last(), line);
        assert forall|x: IssueView| x.0 == "L014"@ implies all_code(#[trigger] p.push(x), "L014"@) by {
            lemma_push_code(p, x, "L014"@);
        }
    }
}

proof fn lemma_l014_code(ls: Seq<Seq<char>>)
    ensures
        all_code(rule_l014(ls), "L014"@),
    decreases ls.len(),
{
    if ls.len() > 0 {
        lemma_l014_code(ls.drop_last());
        lemma_l014_caps_code(spec_captures_all(ABSOLUTE_WIKILINK@, ls.last()), ls.len());
        lemma_concat_code(rule_l014(ls.drop_last()), l014_caps(spec_captures_all(ABSOLUTE_WIKILINK@, ls.last()), ls.len()), "L014"@);
    }
}

/// The part of a rule under a filter: all of it when the filter lets the
/// rule run, nothing otherwise; either way its issues carry the filter's
/// code when the rule's issues carry the rule's.
proof fn lemma_part(f: Seq<char>, code: Seq<char>, part: Seq<IssueView>)
    requires
        all_code(part, code),
    ensures
        all_code(if f == code { part } else { Seq::<IssueView>::empty() }, f),
{
}

/// Under a filter, the basic rules report only issues with the filter's code.
proof fn lemma_basic_filter(f: Seq<char>, file: Seq<char>, content: Seq<char>)
    ensures
        all_code(spec_lint(Some(f), file, content), f),
{
    let ls = spec_lines(content);
    lemma_l002_code(ls);
    lemma_l003_code(ls);
    lemma_l005_code(ls);
    lemma_l006_code(ls);
    lemma_l007_code(ls);
    let p1 = if f == "L001"@ { rule_l001(file, content) } else { Seq::<IssueView>::empty() };
    let p2 = if f == "L002"@ { rule_l002_scan(ls).2 } else { Seq::<IssueView>::empty() };
    let p3 = if f == "L003"@ { rule_l003(ls) } else { Seq::<IssueView>::empty() };
    let p4 = if f == "L004"@ { rule_l004(content) } else { Seq::<IssueView>::empty() };
    let p5 = if f == "L005"@ { rule_l005(ls) } else { Seq::<IssueView>::empty() };
    let p6 = if f == "L006"@ { rule_l006_scan(ls).1 } else { Seq::<IssueView>::empty() };
    let p7 = if f == "L007"@ { rule_l007_scan(ls).2 } else { Seq::<IssueView>::empty() };
    let p8 = if f == "L008"@ { rule_l008(content) } else { Seq::<IssueView>::empty() };
    lemma_part(f, "L001"@, rule_l001(file, content));
    lemma_part(f, "L002"@, rule_l002_scan(ls).2);
    lemma_part(f, "L003"@, rule_l003(ls));
    lemma_part(f, "L004"@, rule_l004(content));
    lemma_part(f, "L005"@, rule_l005(ls));
    lemma_part(f, "L006"@, rule_l006_scan(ls).1);
    lemma_part(f, "L007"@, rule_l007_scan(ls).2);
    lemma_part(f, "L008"@, rule_l008(content));
    lemma_concat_code(p1, p2, f);
    lemma_concat_code(p1 + p2, p3, f);
    lemma_concat_code(p1 + p2 + p3, p4, f);
    lemma_concat_code(p1 + p2 + p3 + p4, p5, f);
    lemma_concat_code(p1 + p2 + p3 + p4 + p5, p6, f);
    lemma_concat_code(p1 + p2 + p3 + p4 + p5 + p6, p7, f);
    lemma_concat_code(p1 + p2 + p3 + p4 + p5 + p6 + p7, p8, f);
    assert(spec_lint(Some(f), file, content) == p1 + p2 + p3 + p4 + p5 + p6 + p7 + p8);
}

/// Running one rule runs only that rule: with the filter set to a code,
/// every issue reported for a document carries that code.
pub proof fn law_rule_filter(f: Seq<char>, file: Seq<char>, content: Seq<char>, names: Seq<Seq<char>>)
    ensures
        all_code(spec_lint_file(Some(f), file, content, names), f),
{
    let ls = spec_lines(content);
    lemma_basic_filter(f, file, content);
    lemma_l009_code(ls, ls.len());
    lemma_l010_code(ls);
    lemma_l011_code(ls, ls.len());
    lemma_l012_code(ls);
    lemma_l013_code(ls, names, ls.len());
    lemma_l014_code(ls);
    let q = spec_lint(Some(f), file, content);
    let p9 = if f == "L009"@ { rule_l009(ls) } else { Seq::<IssueView>::empty() };
    let p10 = if f == "L010"@ { rule_l010(ls) } else { Seq::<IssueView>::empty() };
    let p11 = if f == "L011"@ { rule_l011(ls) } else { Seq::<IssueView>::empty() };
    let p12 = if f == "L012"@ { rule_l012(ls) } else { Seq::<IssueView>::empty() };
    let p13 = if f == "L013"@ { rule_l013(ls, names) } else { Seq::<IssueView>::empty() };
    let p14 = if f == "L014"@ { rule_l014(ls) } else { Seq::<IssueView>::empty() };
    lemma_part(f, "L009"@, rule_l009(ls));
    lemma_part(f, "L010"@, rule_l010(ls));
    lemma_part(f, "L011"@, rule_l011(ls));
    lemma_part(f, "L012"@, rule_l012(ls));
    lemma_part(f, "L013"@, rule_l013(ls, names));
    lemma_part(f, "L014"@, rule_l014(ls));
    lemma_concat_code(q, p9, f);
    lemma_concat_code(q + p9, p10, f);
    lemma_concat_code(q + p9 + p10, p11, f);
    lemma_concat_code(q + p9 + p10 + p11, p12, f);
    lemma_concat_code(q + p9 + p10 + p11 + p12, p13, f);
    lemma_concat_code(q + p9 + p10 + p11 + p12 + p13, p14, f);
    assert(spec_lint_file(Some(f), file, content, names) == q + p9 + p10 + p11 + p12 + p13 + p14);
}

} // verus!
