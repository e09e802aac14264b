//! Static analysis of the documentation: style and structure rules.

use vstd::prelude::*;
use crate::text::{
    chars_of, concat2, decimal, lines, owned, push_char, push_str, slice_to_vec, spec_contains,
    spec_decimal, spec_ends_with, spec_lines, spec_starts_with, spec_to_lowercase, spec_trim,
    spec_trim_end, spec_trim_start, spec_utf8_len, starts_with, ends_with, str_eq, string_of,
    strs, to_lowercase, trim, trim_end, trim_start, utf8_len, views, find,
};

verus! {

/// Severity of an issue.
#[derive(Debug, Clone, Copy, PartialEq, Eq, Structural)]
pub enum LintSeverity {
    Error,
    Warning,
    Info,
    Hint,
}

/// One issue.
#[derive(Debug, Clone)]
pub struct LintIssue {
    pub code: String,
    pub message: String,
    pub file: String,
    pub line: Option<usize>,
    pub severity: LintSeverity,
    pub fixable: bool,
}

/// An issue as (code, message, line, severity, fixable).
pub type IssueView = (Seq<char>, Seq<char>, Option<usize>, LintSeverity, bool);

/// The texts of issues (the file left out: every issue of a rule run names
/// the file the rule was run on).
pub open spec fn issues_view(v: Seq<LintIssue>) -> Seq<IssueView> {
    v.map_values(|i: LintIssue| (i.code@, i.message@, i.line, i.severity, i.fixable))
}

/// Every issue names the file.
pub open spec fn all_in_file(v: Seq<LintIssue>, file: Seq<char>) -> bool {
    forall|k: int| 0 <= k < v.len() ==> (#[trigger] v[k]).file@ == file
}

impl LintIssue {
    pub fn error(code: &str, message: &str, file: &str) -> (i: LintIssue)
        ensures
            i.code@ == code@,
            i.message@ == message@,
            i.file@ == file@,
            i.line is None,
            i.severity == LintSeverity::Error,
            !i.fixable,
    {
        LintIssue { code: owned(code), message: owned(message), file: owned(file), line: None, severity: LintSeverity::Error, fixable: false }
    }

    pub fn warning(code: &str, message: &str, file: &str) -> (i: LintIssue)
        ensures
            i.code@ == code@,
            i.message@ == message@,
            i.file@ == file@,
            i.line is None,
            i.severity == LintSeverity::Warning,
            !i.fixable,
    {
        LintIssue { code: owned(code), message: owned(message), file: owned(file), line: None, severity: LintSeverity::Warning, fixable: false }
    }
}

/// Outcome of a lint run.
#[derive(Debug, Clone)]
pub struct LintResult {
    pub issues: Vec<LintIssue>,
    pub files_checked: usize,
    pub files_with_issues: usize,
}

/// Number of issues of a severity.
pub open spec fn count_severity(v: Seq<LintIssue>, s: LintSeverity) -> nat {
    v.filter(|i: LintIssue| i.severity == s).len()
}

impl LintResult {
    pub fn new() -> (r: LintResult)
        ensures
            r.issues@.len() == 0,
            r.files_checked == 0,
            r.files_with_issues == 0,
    {
        LintResult { issues: Vec::new(), files_checked: 0, files_with_issues: 0 }
    }

    fn count(&self, s: LintSeverity) -> (n: usize)
        ensures
            n == count_severity(self.issues@, s),
    {
        let mut n: usize = 0;
        let mut i: usize = 0;
        while i < self.issues.len()
            invariant
                i <= self.issues@.len(),
                n == self.issues@.subrange(0, i as int).filter(|x: LintIssue| x.severity == s).len(),
                n <= i,
            decreases self.issues@.len() - i,
        {
            proof {
                let sub = self.issues@.subrange(0, i + 1);
                assert(sub.drop_last() =~= self.issues@.subrange(0, i as int));
                reveal_with_fuel(Seq::<_>::filter, 1);
            }
            if self.issues[i].severity == s {
                n = n + 1;
            }
            i = i + 1;
        }
        assert(self.issues@.subrange(0, self.issues@.len() as int) =~= self.issues@);
        n
    }

    pub fn error_count(&self) -> (n: usize)
        ensures
            n == count_severity(self.issues@, LintSeverity::Error),
    {
        self.count(LintSeverity::Error)
    }

    pub fn warning_count(&self) -> (n: usize)
        ensures
            n == count_severity(self.issues@, LintSeverity::Warning),
    {
        self.count(LintSeverity::Warning)
    }

    pub fn fixable_count(&self) -> (n: usize)
        ensures
            n == self.issues@.filter(|x: LintIssue| x.fixable).len(),
    {
        let mut n: usize = 0;
        let mut i: usize = 0;
        while i < self.issues.len()
            invariant
                i <= self.issues@.len(),
                n == self.issues@.subrange(0, i as int).filter(|x: LintIssue| x.fixable).len(),
                n <= i,
            decreases self.issues@.len() - i,
        {
            proof {
                let sub = self.issues@.subrange(0, i + 1);
                assert(sub.drop_last() =~= self.issues@.subrange(0, i as int));
                reveal_with_fuel(Seq::<_>::filter, 1);
            }
            if self.issues[i].fixable {
                n = n + 1;
            }
            i = i + 1;
        }
        assert(self.issues@.subrange(0, self.issues@.len() as int) =~= self.issues@);
        n
    }

    /// No errors and no warnings.
    pub fn is_clean(&self) -> (r: bool)
        ensures
            r == (count_severity(self.issues@, LintSeverity::Error) == 0
                && count_severity(self.issues@, LintSeverity::Warning) == 0),
    {
        self.error_count() == 0 && self.warning_count() == 0
    }
}

impl Default for LintResult {
    fn default() -> (r: LintResult)
        ensures
            r.issues@.len() == 0,
            r.files_checked == 0,
            r.files_with_issues == 0,
    {
        LintResult::new()
    }
}

/// Options of the lint command.
#[derive(Debug, Clone)]
pub struct LintCommand {
    pub path: Option<String>,
    pub fix: bool,
    pub dry_run: bool,
    pub errors_only: bool,
    pub json: bool,
    pub rule: Option<String>,
    pub summary: bool,
    pub show_fixes: bool,
    pub explain: Option<String>,
}

/// Builds an issue.
pub(crate) fn issue(code: &str, message: String, file: &str, line: Option<usize>, severity: LintSeverity, fixable: bool) -> (i: LintIssue)
    ensures
        i.code@ == code@,
        i.message@ == message@,
        i.file@ == file@,
        i.line == line,
        i.severity == severity,
        i.fixable == fixable,
{
    LintIssue { code: owned(code), message, file: owned(file), line, severity, fixable }
}

// ─────────────────────────────────────────────────────────────────────────
// Rules
// ─────────────────────────────────────────────────────────────────────────

/// L001: a document outside `_summaries/` must start with a front matter.
pub open spec fn rule_l001(file: Seq<char>, content: Seq<char>) -> Seq<IssueView> {
    if spec_contains(file, "_summaries/"@) || spec_contains(file, "_summaries\\"@) {
        Seq::empty()
    } else if !spec_starts_with(content, "---"@) {
        seq![("L001"@, "Archivo sin frontmatter YAML"@, Some(1usize), LintSeverity::Warning, false)]
    } else {
        Seq::empty()
    }
}

/// L003: lines ending in a space or tab.
pub open spec fn rule_l003(ls: Seq<Seq<char>>) -> Seq<IssueView>
    decreases ls.len(),
{
    if ls.len() == 0 {
        Seq::empty()
    } else {
        let p = rule_l003(ls.drop_last());
        let l = ls.last();
        if l.len() > 0 && (l.last() == ' ' || l.last() == '\t') {
            p.push(("L003"@, "Trailing whitespace"@, Some(ls.len() as usize), LintSeverity::Info, true))
        } else {
            p
        }
    }
}

/// L004: the document must end with a newline.
pub open spec fn rule_l004(content: Seq<char>) -> Seq<IssueView> {
    if !(content.len() > 0 && content.last() == '\n') {
        seq![("L004"@, "Archivo no termina con newline"@, None::<usize>, LintSeverity::Info, true)]
    } else {
        Seq::empty()
    }
}

/// Longest line accepted, in UTF-8 bytes.
pub const MAX_LINE_LENGTH: usize = 300;

/// L005: lines longer than [`MAX_LINE_LENGTH`] bytes.
pub open spec fn rule_l005(ls: Seq<Seq<char>>) -> Seq<IssueView>
    decreases ls.len(),
{
    if ls.len() == 0 {
        Seq::empty()
    } else {
        let p = rule_l005(ls.drop_last());
        let n = spec_utf8_len(ls.last());
        if n > MAX_LINE_LENGTH {
            p.push(("L005"@, "Línea muy larga ("@ + spec_decimal(n) + " chars, max: 300)"@,
                Some(ls.len() as usize), LintSeverity::Warning, false))
        } else {
            p
        }
    }
}

/// `s` without its leading backticks.
pub open spec fn strip_backticks(s: Seq<char>) -> Seq<char>
    decreases s.len(),
{
    if s.len() > 0 && s[0] == '`' { strip_backticks(s.drop_first()) } else { s }
}

/// L006: the scan state (inside a code block) and issues for fences that
/// open a block without a language.
pub open spec fn rule_l006_scan(ls: Seq<Seq<char>>) -> (bool, Seq<IssueView>)
    decreases ls.len(),
{
    if ls.len() == 0 {
        (false, Seq::empty())
    } else {
        let (inside, p) = rule_l006_scan(ls.drop_last());
        let t = spec_trim(ls.last());
        if spec_starts_with(t, "```"@) {
            if !inside {
                if strip_backticks(t).len() == 0 {
                    (true, p.push(("L006"@, "Code block sin lenguaje especificado"@, Some(ls.len() as usize), LintSeverity::Hint, false)))
                } else {
                    (true, p)
                }
            } else {
                (false, p)
            }
        } else {
            (inside, p)
        }
    }
}

/// L008: in a document with front matter, the fields `id:` and `title:`
/// must appear.
pub open spec fn rule_l008(content: Seq<char>) -> Seq<IssueView> {
    if spec_starts_with(content, "---"@) {
        (if !spec_contains(content, "id:"@) {
            seq![("L008"@, "Campo obligatorio faltante: id"@, None::<usize>, LintSeverity::Error, false)]
        } else {
            Seq::empty()
        }) + (if !spec_contains(content, "title:"@) {
            seq![("L008"@, "Campo obligatorio faltante: title"@, None::<usize>, LintSeverity::Error, false)]
        } else {
            Seq::empty()
        })
    } else {
        Seq::empty()
    }
}

/// A fence line (after the given trimming): starts with three backticks or
/// three tildes.
pub open spec fn is_fence(t: Seq<char>) -> bool {
    spec_starts_with(t, "```"@) || spec_starts_with(t, "~~~"@)
}

/// Number of leading `#` of a line.
pub open spec fn hashes(l: Seq<char>) -> nat
    decreases l.len(),
{
    if l.len() > 0 && l[0] == '#' { 1 + hashes(l.drop_first()) } else { 0 }
}

/// L002: the scan state (inside a code block, last heading level) and
/// issues for headings that skip a level.
pub open spec fn rule_l002_scan(ls: Seq<Seq<char>>) -> (bool, nat, Seq<IssueView>)
    decreases ls.len(),
{
    if ls.len() == 0 {
        (false, 0, Seq::empty())
    } else {
        let (inside, last, p) = rule_l002_scan(ls.drop_last());
        let l = ls.last();
        if is_fence(spec_trim_start(l)) {
            (!inside, last, p)
        } else if inside {
            (inside, last, p)
        } else if l.len() > 0 && l[0] == '#' {
            let level = hashes(l);
            if last > 0 && level > last + 1 {
                (inside, level, p.push(("L002"@, "Header salta de H"@ + spec_decimal(last) + " a H"@ + spec_decimal(level),
                    Some(ls.len() as usize), LintSeverity::Warning, false)))
            } else {
                (inside, level, p)
            }
        } else {
            (inside, last, p)
        }
    }
}

/// The (lower-cased, trimmed) heading text of a line, if it is a heading
/// counted by L007: hashes, then a space, then text not starting with `!`.
pub open spec fn heading_key(l: Seq<char>) -> Option<Seq<char>> {
    if l.len() > 0 && l[0] == '#' {
        let rest = l.skip(hashes(l) as int);
        if rest.len() > 0 && rest[0] == ' ' {
            let h = spec_to_lowercase(spec_trim(rest));
            if (h.len() > 0 && h[0] == '!') || h.len() == 0 { None } else { Some(h) }
        } else {
            None
        }
    } else {
        None
    }
}

/// The line where a heading was first seen.
pub open spec fn first_seen(seen: Seq<(Seq<char>, usize)>, h: Seq<char>) -> Option<usize>
    decreases seen.len(),
{
    if seen.len() == 0 {
        None
    } else {
        match first_seen(seen.drop_last(), h) {
            Some(n) => Some(n),
            None => if seen.last().0 == h { Some(seen.last().1) } else { None },
        }
    }
}

/// L007: the scan state (inside a code block, headings seen with their
/// first line) and issues for repeated headings.
pub open spec fn rule_l007_scan(ls: Seq<Seq<char>>) -> (bool, Seq<(Seq<char>, usize)>, Seq<IssueView>)
    decreases ls.len(),
{
    if ls.len() == 0 {
        (false, Seq::empty(), Seq::empty())
    } else {
        let (inside, seen, p) = rule_l007_scan(ls.drop_last());
        let l = ls.last();
        if is_fence(spec_trim(l)) {
            (!inside, seen, p)
        } else if inside {
            (inside, seen, p)
        } else {
            match heading_key(l) {
                Some(h) => match first_seen(seen, h) {
                    Some(first) => (inside, seen, p.push(("L007"@,
                        "Header duplicado (primera aparición línea "@ + spec_decimal(first as nat) + ")"@,
                        Some(ls.len() as usize), LintSeverity::Warning, false))),
                    None => (inside, seen.push((h, ls.len() as usize)), p),
                },
                None => (inside, seen, p),
            }
        }
    }
}

/// The issues of the basic rules for a document, in rule order
/// (L001 to L008), each rule run when the rule filter allows it.
pub open spec fn spec_lint(filter: Option<Seq<char>>, file: Seq<char>, content: Seq<char>) -> Seq<IssueView> {
    let ls = spec_lines(content);
    let on = |code: Seq<char>| match filter { Some(f) => f == code, None => true };
    (if on("L001"@) { rule_l001(file, content) } else { Seq::empty() })
        + (if on("L002"@) { rule_l002_scan(ls).2 } else { Seq::empty() })
        + (if on("L003"@) { rule_l003(ls) } else { Seq::empty() })
        + (if on("L004"@) { rule_l004(content) } else { Seq::empty() })
        + (if on("L005"@) { rule_l005(ls) } else { Seq::empty() })
        + (if on("L006"@) { rule_l006_scan(ls).1 } else { Seq::empty() })
        + (if on("L007"@) { rule_l007_scan(ls).2 } else { Seq::empty() })
        + (if on("L008"@) { rule_l008(content) } else { Seq::empty() })
}

/// Number of leading `#`.
pub(crate) fn count_hashes(l: &Vec<char>) -> (n: usize)
    ensures
        n == hashes(l@),
        n <= l@.len(),
{
    let mut n: usize = 0;
    assert(l@.skip(0) =~= l@);
    while n < l.len() && l[n] == '#'
        invariant
            n <= l@.len(),
            hashes(l@) == n + hashes(l@.skip(n as int)),
        decreases l@.len() - n,
    {
        assert(l@.skip(n as int).drop_first() =~= l@.skip(n + 1));
        n = n + 1;
    }
    n
}

/// Whether a line (after trimming) is a fence.
pub(crate) fn fence(t: &Vec<char>) -> (r: bool)
    ensures
        r == is_fence(t@),
{
    starts_with(t, &chars_of("```")) || starts_with(t, &chars_of("~~~"))
}

/// The issues of one file that a run keeps: all of them, or only the
/// errors when only errors are asked for.
pub open spec fn kept_issues(errors_only: bool, issues: Seq<LintIssue>) -> Seq<LintIssue> {
    issues.filter(|x: LintIssue| !errors_only || x.severity == LintSeverity::Error)
}

impl LintCommand {
    /// Records the issues of one file: the file counts as having issues when
    /// it has any, and the kept ones (see [`kept_issues`]) are appended.
    pub fn record_issues(&self, result: &mut LintResult, issues: Vec<LintIssue>)
        requires
            old(result).files_with_issues < usize::MAX,
        ensures
            final(result).issues@ == old(result).issues@ + kept_issues(self.errors_only, issues@),
            final(result).files_with_issues == old(result).files_with_issues + if issues@.len() > 0 { 1int } else { 0int },
            final(result).files_checked == old(result).files_checked,
    {
        if issues.len() > 0 {
            result.files_with_issues = result.files_with_issues + 1;
        }
        let ghost i0 = result.issues@;
        let ghost all = issues@;
        let n = issues.len();
        let mut rest = issues;
        let mut k: usize = 0;
        assert(all.subrange(0, 0).filter(|x: LintIssue| !self.errors_only || x.severity == LintSeverity::Error)
            =~= Seq::<LintIssue>::empty()) by {
            reveal_with_fuel(Seq::<_>::filter, 1);
        }
        assert(rest@ =~= all.subrange(0, n as int));
        while rest.len() > 0
            invariant
                k + rest@.len() == n,
                n == all.len(),
                rest@ == all.subrange(k as int, n as int),
                result.issues@ == i0 + all.subrange(0, k as int).filter(
                    |x: LintIssue| !self.errors_only || x.severity == LintSeverity::Error),
                result.files_checked == old(result).files_checked,
                result.files_with_issues == old(result).files_with_issues + if all.len() > 0 { 1int } else { 0int },
            decreases rest@.len(),
        {
            proof {
                assert(all.subrange(0, k + 1).drop_last() =~= all.subrange(0, k as int));
                reveal_with_fuel(Seq::<_>::filter, 1);
            }
            let issue = rest.remove(0);
            assert(issue == all[k as int]);
            assert(rest@ =~= all.subrange(k + 1, n as int));
            if !self.errors_only || issue.severity == LintSeverity::Error {
                result.issues.push(issue);
            }
            k = k + 1;
        }
        assert(all.subrange(0, all.len() as int) =~= all);
    }
    /// Whether a rule runs under the rule filter.
    pub fn should_run_rule(&self, rule_code: &str) -> (r: bool)
        ensures
            r == match self.rule { Some(f) => rule_code@ == f@, None => true },
    {
        match &self.rule {
            Some(f) => str_eq(rule_code, f.as_str()),
            None => true,
        }
    }

    /// L001 on a document.
    pub fn rule_frontmatter(&self, file: &str, content: &str) -> (r: Vec<LintIssue>)
        ensures
            issues_view(r@) == rule_l001(file@, content@),
            all_in_file(r@, file@),
    {
        let fv = chars_of(file);
        let mut r: Vec<LintIssue> = Vec::new();
        if find(&fv, &chars_of("_summaries/")).is_some() || find(&fv, &chars_of("_summaries\\")).is_some() {
            assert(issues_view(r@) =~= rule_l001(file@, content@));
            return r;
        }
        if !starts_with(&chars_of(content), &chars_of("---")) {
            r.push(issue("L001", owned("Archivo sin frontmatter YAML"), file, Some(1), LintSeverity::Warning, false));
        }
        assert(issues_view(r@) =~= rule_l001(file@, content@));
        r
    }

    /// L003 on the lines of a document.
    pub fn rule_trailing_whitespace(&self, file: &str, ls: &Vec<Vec<char>>) -> (r: Vec<LintIssue>)
        requires
            ls@.len() < usize::MAX,
        ensures
            issues_view(r@) == rule_l003(views(ls@)),
            all_in_file(r@, file@),
    {
        let ghost lv = views(ls@);
        let mut r: Vec<LintIssue> = Vec::new();
        let mut i: usize = 0;
        while i < ls.len()
            invariant
                i <= ls@.len(),
                ls@.len() < usize::MAX,
                lv == views(ls@),
                issues_view(r@) == rule_l003(lv.subrange(0, i as int)),
                all_in_file(r@, file@),
            decreases ls@.len() - i,
        {
            let ghost sub = lv.subrange(0, i + 1);
            assert(sub.drop_last() =~= lv.subrange(0, i as int));
            assert(sub.last() == ls@[i as int]@);
            let l = &ls[i];
            if l.len() > 0 && (l[l.len() - 1] == ' ' || l[l.len() - 1] == '\t') {
                let ghost r0 = r@;
                r.push(issue("L003", owned("Trailing whitespace"), file, Some(i + 1), LintSeverity::Info, true));
                assert(issues_view(r@) =~= issues_view(r0).push(issues_view(r@).last()));
            }
            i = i + 1;
        }
        assert(lv.subrange(0, ls@.len() as int) =~= lv);
        r
    }

    /// L004 on a document.
    pub fn rule_final_newline(&self, file: &str, content: &str) -> (r: Vec<LintIssue>)
        ensures
            issues_view(r@) == rule_l004(content@),
            all_in_file(r@, file@),
    {
        let cv = chars_of(content);
        let mut r: Vec<LintIssue> = Vec::new();
        if !(cv.len() > 0 && cv[cv.len() - 1] == '\n') {
            r.push(issue("L004", owned("Archivo no termina con newline"), file, None, LintSeverity::Info, true));
        }
        assert(issues_view(r@) =~= rule_l004(content@));
        r
    }

    /// L005 on the lines of a document.
    pub fn rule_line_length(&self, file: &str, ls: &Vec<Vec<char>>) -> (r: Vec<LintIssue>)
        requires
            ls@.len() < usize::MAX,
            forall|k: int| 0 <= k < ls@.len() ==> spec_utf8_len((#[trigger] ls@[k])@) <= usize::MAX,
        ensures
            issues_view(r@) == rule_l005(views(ls@)),
            all_in_file(r@, file@),
    {
        let ghost lv = views(ls@);
        let mut r: Vec<LintIssue> = Vec::new();
        let mut i: usize = 0;
        while i < ls.len()
            invariant
                i <= ls@.len(),
                ls@.len() < usize::MAX,
                forall|k: int| 0 <= k < ls@.len() ==> spec_utf8_len((#[trigger] ls@[k])@) <= usize::MAX,
                lv == views(ls@),
                issues_view(r@) == rule_l005(lv.subrange(0, i as int)),
                all_in_file(r@, file@),
            decreases ls@.len() - i,
        {
            let ghost sub = lv.subrange(0, i + 1);
            assert(sub.drop_last() =~= lv.subrange(0, i as int));
            assert(sub.last() == ls@[i as int]@);
            let n = utf8_len(ls[i].as_slice());
            if n > MAX_LINE_LENGTH {
                let mut m = owned("Línea muy larga (");
                push_str(&mut m, decimal(n).as_str());
                push_str(&mut m, " chars, max: 300)");
                let ghost r0 = r@;
                r.push(issue("L005", m, file, Some(i + 1), LintSeverity::Warning, false));
                assert(issues_view(r@) =~= issues_view(r0).push(issues_view(r@).last()));
            }
            i = i + 1;
        }
        assert(lv.subrange(0, ls@.len() as int) =~= lv);
        r
    }

    /// L006 on the lines of a document.
    pub fn rule_code_block_language(&self, file: &str, ls: &Vec<Vec<char>>) -> (r: Vec<LintIssue>)
        requires
            ls@.len() < usize::MAX,
        ensures
            issues_view(r@) == rule_l006_scan(views(ls@)).1,
            all_in_file(r@, file@),
    {
        let ghost lv = views(ls@);
        let ticks = chars_of("```");
        let mut inside = false;
        let mut r: Vec<LintIssue> = Vec::new();
        let mut i: usize = 0;
        while i < ls.len()
            invariant
                i <= ls@.len(),
                ls@.len() < usize::MAX,
                lv == views(ls@),
                ticks@ == "```"@,
                rule_l006_scan(lv.subrange(0, i as int)) == (inside, issues_view(r@)),
                all_in_file(r@, file@),
            decreases ls@.len() - i,
        {
            let ghost sub = lv.subrange(0, i + 1);
            assert(sub.drop_last() =~= lv.subrange(0, i as int));
            assert(sub.last() == ls@[i as int]@);
            let t = trim(ls[i].as_slice());
            if starts_with(&t, &ticks) {
                if !inside {
                    inside = true;
                    let mut k: usize = 0;
                    assert(t@.skip(0) =~= t@);
                    while k < t.len() && t[k] == '`'
                        invariant
                            k <= t@.len(),
                            strip_backticks(t@) == strip_backticks(t@.skip(k as int)),
                        decreases t@.len() - k,
                    {
                        assert(t@.skip(k as int).drop_first() =~= t@.skip(k + 1));
                        k = k + 1;
                    }
                    if k == t.len() {
                        assert(t@.skip(k as int).len() == 0);
                        let ghost r0 = r@;
                        r.push(issue("L006", owned("Code block sin lenguaje especificado"), file, Some(i + 1), LintSeverity::Hint, false));
                        assert(issues_view(r@) =~= issues_view(r0).push(issues_view(r@).last()));
                    } else {
                        assert(t@.skip(k as int).len() > 0 && t@.skip(k as int)[0] != '`');
                    }
                } else {
                    inside = false;
                }
            }
            i = i + 1;
        }
        assert(lv.subrange(0, ls@.len() as int) =~= lv);
        r
    }

    /// L008 on a document.
    pub fn rule_required_fields(&self, file: &str, content: &str) -> (r: Vec<LintIssue>)
        ensures
            issues_view(r@) == rule_l008(content@),
            all_in_file(r@, file@),
    {
        let cv = chars_of(content);
        let mut r: Vec<LintIssue> = Vec::new();
        if starts_with(&cv, &chars_of("---")) {
            if find(&cv, &chars_of("id:")).is_none() {
                r.push(issue("L008", owned("Campo obligatorio faltante: id"), file, None, LintSeverity::Error, false));
            }
            if find(&cv, &chars_of("title:")).is_none() {
                r.push(issue("L008", owned("Campo obligatorio faltante: title"), file, None, LintSeverity::Error, false));
            }
        }
        assert(issues_view(r@) =~= rule_l008(content@));
        r
    }

    /// L002 on the lines of a document.
    pub fn rule_header_hierarchy(&self, file: &str, ls: &Vec<Vec<char>>) -> (r: Vec<LintIssue>)
        requires
            ls@.len() < usize::MAX,
        ensures
            issues_view(r@) == rule_l002_scan(views(ls@)).2,
            all_in_file(r@, file@),
    {
        let ghost lv = views(ls@);
        let mut inside = false;
        let mut last: usize = 0;
        let mut r: Vec<LintIssue> = Vec::new();
        let mut i: usize = 0;
        while i < ls.len()
            invariant
                i <= ls@.len(),
                ls@.len() < usize::MAX,
                lv == views(ls@),
                rule_l002_scan(lv.subrange(0, i as int)) == (inside, last as nat, issues_view(r@)),
                all_in_file(r@, file@),
            decreases ls@.len() - i,
        {
            let ghost sub = lv.subrange(0, i + 1);
            assert(sub.drop_last() =~= lv.subrange(0, i as int));
            assert(sub.last() == ls@[i as int]@);
            let l = &ls[i];
            let ts = trim_start(l.as_slice());
            if fence(&ts) {
                inside = !inside;
            } else if inside {
            } else if l.len() > 0 && l[0] == '#' {
                let level = count_hashes(l);
                if last > 0 && level > last && level - last > 1 {
                    let mut m = owned("Header salta de H");
                    push_str(&mut m, decimal(last).as_str());
                    push_str(&mut m, " a H");
                    push_str(&mut m, decimal(level).as_str());
                    let ghost r0 = r@;
                    r.push(issue("L002", m, file, Some(i + 1), LintSeverity::Warning, false));
                    assert(issues_view(r@) =~= issues_view(r0).push(issues_view(r@).last()));
                }
                last = level;
            }
            i = i + 1;
        }
        assert(lv.subrange(0, ls@.len() as int) =~= lv);
        r
    }

    /// L007 on the lines of a document.
    pub fn rule_duplicate_headers(&self, file: &str, ls: &Vec<Vec<char>>) -> (r: Vec<LintIssue>)
        requires
            ls@.len() < usize::MAX,
        ensures
            issues_view(r@) == rule_l007_scan(views(ls@)).2,
            all_in_file(r@, file@),
    {
        let ghost lv = views(ls@);
        let mut inside = false;
        let mut seen: Vec<(String, usize)> = Vec::new();
        let mut r: Vec<LintIssue> = Vec::new();
        let mut i: usize = 0;
        while i < ls.len()
            invariant
                i <= ls@.len(),
                ls@.len() < usize::MAX,
                lv == views(ls@),
                rule_l007_scan(lv.subrange(0, i as int)) == (inside, seen_view(seen@), issues_view(r@)),
                all_in_file(r@, file@),
            decreases ls@.len() - i,
        {
            let ghost sub = lv.subrange(0, i + 1);
            assert(sub.drop_last() =~= lv.subrange(0, i as int));
            assert(sub.last() == ls@[i as int]@);
            let l = &ls[i];
            let t = trim(l.as_slice());
            if fence(&t) {
                inside = !inside;
            } else if inside {
            } else {
                match heading_key_exec(l) {
                    Some(h) => {
                        match first_seen_exec(&seen, &h) {
                            Some(first) => {
                                let mut m = owned("Header duplicado (primera aparición línea ");
                                push_str(&mut m, decimal(first).as_str());
                                push_str(&mut m, ")");
                                let ghost r0 = r@;
                                r.push(issue("L007", m, file, Some(i + 1), LintSeverity::Warning, false));
                                assert(issues_view(r@) =~= issues_view(r0).push(issues_view(r@).last()));
                            },
                            None => {
                                let ghost s0 = seen_view(seen@);
                                seen.push((h, i + 1));
                                assert(seen_view(seen@) =~= s0.push(seen_view(seen@).last()));
                            },
                        }
                    },
                    None => {},
                }
            }
            i = i + 1;
        }
        assert(lv.subrange(0, ls@.len() as int) =~= lv);
        r
    }

    /// The basic rules (L001 to L008) on a document, as the rule filter allows.
    pub fn lint_basic(&self, file: &str, content: &str) -> (r: Vec<LintIssue>)
        requires
            spec_lines(content@).len() < usize::MAX,
            forall|k: int| 0 <= k < spec_lines(content@).len() ==> spec_utf8_len(#[trigger] spec_lines(content@)[k]) <= usize::MAX,
        ensures
            issues_view(r@) == spec_lint(match self.rule { Some(f) => Some(f@), None => None }, file@, content@),
            all_in_file(r@, file@),
    {
        let ls = lines(&chars_of(content));
        proof {
            assert forall|k: int| 0 <= k < ls@.len() implies spec_utf8_len((#[trigger] ls@[k])@) <= usize::MAX by {
                assert(views(ls@)[k] == ls@[k]@);
            }
        }
        let mut r: Vec<LintIssue> = Vec::new();
        let ghost f = match &self.rule { Some(f) => Some(f@), None => None::<Seq<char>> };
        let ghost lv = views(ls@);
        if self.should_run_rule("L001") { let mut x = self.rule_frontmatter(file, content); append_issues(&mut r, &mut x, Ghost(file@)); }
        let ghost a1 = issues_view(r@);
        if self.should_run_rule("L002") { let mut x = self.rule_header_hierarchy(file, &ls); append_issues(&mut r, &mut x, Ghost(file@)); }
        let ghost a2 = issues_view(r@);
        if self.should_run_rule("L003") { let mut x = self.rule_trailing_whitespace(file, &ls); append_issues(&mut r, &mut x, Ghost(file@)); }
        let ghost a3 = issues_view(r@);
        if self.should_run_rule("L004") { let mut x = self.rule_final_newline(file, content); append_issues(&mut r, &mut x, Ghost(file@)); }
        let ghost a4 = issues_view(r@);
        if self.should_run_rule("L005") { let mut x = self.rule_line_length(file, &ls); append_issues(&mut r, &mut x, Ghost(file@)); }
        let ghost a5 = issues_view(r@);
        if self.should_run_rule("L006") { let mut x = self.rule_code_block_language(file, &ls); append_issues(&mut r, &mut x, Ghost(file@)); }
        let ghost a6 = issues_view(r@);
        if self.should_run_rule("L007") { let mut x = self.rule_duplicate_headers(file, &ls); append_issues(&mut r, &mut x, Ghost(file@)); }
        let ghost a7 = issues_view(r@);
        if self.should_run_rule("L008") { let mut x = self.rule_required_fields(file, content); append_issues(&mut r, &mut x, Ghost(file@)); }
        proof {
            reveal_strlit("L001");
            reveal_strlit("L002");
            reveal_strlit("L003");
            reveal_strlit("L004");
            reveal_strlit("L005");
            reveal_strlit("L006");
            reveal_strlit("L007");
            reveal_strlit("L008");
            assert(issues_view(r@) =~= spec_lint(f, file@, content@));
        }
        r
    }

    /// Trailing whitespace removed from each line, each line ended by a
    /// newline, and repeated final newlines reduced to one; `None` when
    /// nothing changed.
    pub fn fix_file(&self, content: &str) -> (r: Option<String>)
        ensures
            match r {
                Some(s) => spec_fix(content@).1 && s@ == spec_fix(content@).0,
                None => !spec_fix(content@).1,
            },
    {
        let ls = lines(&chars_of(content));
        let ghost lv = views(ls@);
        let mut out: Vec<char> = Vec::new();
        let mut modified = false;
        let mut i: usize = 0;
        while i < ls.len()
            invariant
                i <= ls@.len(),
                lv == views(ls@),
                out@ == fixed_lines(lv.subrange(0, i as int)),
                modified == lines_changed(lv.subrange(0, i as int)),
            decreases ls@.len() - i,
        {
            let ghost sub = lv.subrange(0, i + 1);
            assert(sub.drop_last() =~= lv.subrange(0, i as int));
            assert(sub.last() == ls@[i as int]@);
            let t = trim_end(ls[i].as_slice());
            if !crate::text::seq_eq(&t, ls[i].as_slice()) {
                modified = true;
            }
            let ghost o0 = out@;
            let mut k: usize = 0;
            while k < t.len()
                invariant
                    k <= t@.len(),
                    out@ == o0 + t@.subrange(0, k as int),
                decreases t@.len() - k,
            {
                out.push(t[k]);
                assert(t@.subrange(0, k + 1) =~= t@.subrange(0, k as int).push(t@[k as int]));
                k = k + 1;
            }
            out.push('\n');
            assert(t@.subrange(0, t@.len() as int) =~= t@);
            assert(out@ =~= o0 + t@ + seq!['\n']);
            i = i + 1;
        }
        assert(lv.subrange(0, ls@.len() as int) =~= lv);
        let cv = chars_of(content);
        if !(cv.len() > 0 && cv[cv.len() - 1] == '\n') {
            modified = true;
        }
        let ghost before = out@;
        let ghost m0 = modified;
        while out.len() >= 2 && out[out.len() - 1] == '\n' && out[out.len() - 2] == '\n'
            invariant
                collapse(before) == collapse(out@),
                m0 ==> modified,
                modified == (m0 || out@ != before),
                out@.len() <= before.len(),
                out@ == before.subrange(0, out@.len() as int),
            decreases out@.len(),
        {
            let ghost o = out@;
            out.pop();
            assert(out@ =~= o.drop_last());
            assert(before.subrange(0, out@.len() as int) =~= out@);
            modified = true;
        }
        if modified {
            Some(string_of(&out))
        } else {
            None
        }
    }
}

/// The headings seen, as texts.
pub open spec fn seen_view(v: Seq<(String, usize)>) -> Seq<(Seq<char>, usize)> {
    v.map_values(|p: (String, usize)| (p.0@, p.1))
}

/// The heading key of a line.
fn heading_key_exec(l: &Vec<char>) -> (r: Option<String>)
    ensures
        match r {
            Some(h) => heading_key(l@) == Some(h@),
            None => heading_key(l@) is None,
        },
{
    if l.len() > 0 && l[0] == '#' {
        let n = count_hashes(l);
        let rest = slice_to_vec(l.as_slice(), n, l.len());
        assert(rest@ =~= l@.skip(n as int));
        if rest.len() > 0 && rest[0] == ' ' {
            let h = to_lowercase(string_of(&trim(rest.as_slice())).as_str());
            let hv = chars_of(h.as_str());
            if (hv.len() > 0 && hv[0] == '!') || hv.len() == 0 { None } else { Some(h) }
        } else {
            None
        }
    } else {
        None
    }
}

/// The first line a heading was seen on.
fn first_seen_exec(seen: &Vec<(String, usize)>, h: &String) -> (r: Option<usize>)
    ensures
        r == first_seen(seen_view(seen@), h@),
{
    let ghost sv = seen_view(seen@);
    let mut i: usize = 0;
    assert(sv.subrange(0, 0) =~= Seq::<(Seq<char>, usize)>::empty());
    while i < seen.len()
        invariant
            i <= seen@.len(),
            sv == seen_view(seen@),
            first_seen(sv.subrange(0, i as int), h@) is None,
        decreases seen@.len() - i,
    {
        let ghost sub = sv.subrange(0, i + 1);
        assert(sub.drop_last() =~= sv.subrange(0, i as int));
        if str_eq(seen[i].0.as_str(), h.as_str()) {
            proof {
                lemma_first_seen_prefix(sv, h@, i + 1);
            }
            return Some(seen[i].1);
        }
        i = i + 1;
    }
    assert(sv.subrange(0, seen@.len() as int) =~= sv);
    None
}

proof fn lemma_first_seen_prefix(sv: Seq<(Seq<char>, usize)>, h: Seq<char>, n: int)
    requires
        0 < n <= sv.len(),
        first_seen(sv.subrange(0, n), h) is Some,
    ensures
        first_seen(sv, h) == first_seen(sv.subrange(0, n), h),
    decreases sv.len() - n,
{
    if n < sv.len() {
        assert(sv.drop_last().subrange(0, n) =~= sv.subrange(0, n));
        lemma_first_seen_prefix(sv.drop_last(), h, n);
    } else {
        assert(sv.subrange(0, n) =~= sv);
    }
}

/// Appends the issues of a rule.
pub(crate) fn append_issues(r: &mut Vec<LintIssue>, x: &mut Vec<LintIssue>, Ghost(file): Ghost<Seq<char>>)
    requires
        all_in_file(old(r)@, file),
        all_in_file(old(x)@, file),
    ensures
        issues_view(final(r)@) == issues_view(old(r)@) + issues_view(old(x)@),
        all_in_file(final(r)@, file),
{
    let ghost r0 = r@;
    let ghost x0 = x@;
    r.append(x);
    assert(issues_view(r@) =~= issues_view(r0) + issues_view(x0));
    assert forall|k: int| 0 <= k < r@.len() implies (#[trigger] r@[k]).file@ == file by {
        if k < r0.len() {
            assert(r@[k] == r0[k]);
        } else {
            assert(r@[k] == x0[k - r0.len()]);
        }
    }
}

/// The lines with trailing whitespace removed, each followed by a newline.
pub open spec fn fixed_lines(ls: Seq<Seq<char>>) -> Seq<char>
    decreases ls.len(),
{
    if ls.len() == 0 { Seq::empty() } else { fixed_lines(ls.drop_last()) + spec_trim_end(ls.last()) + seq!['\n'] }
}

/// Some line had trailing whitespace.
pub open spec fn lines_changed(ls: Seq<Seq<char>>) -> bool
    decreases ls.len(),
{
    if ls.len() == 0 { false } else { lines_changed(ls.drop_last()) || spec_trim_end(ls.last()) != ls.last() }
}

/// Trailing newlines reduced while two end the text.
pub open spec fn collapse(s: Seq<char>) -> Seq<char>
    decreases s.len(),
{
    if s.len() >= 2 && s.last() == '\n' && s[s.len() - 2] == '\n' { collapse(s.drop_last()) } else { s }
}

/// The fixed text, and whether it differs from the original in one of the
/// ways the fix looks at.
pub open spec fn spec_fix(content: Seq<char>) -> (Seq<char>, bool) {
    let ls = spec_lines(content);
    let f = fixed_lines(ls);
    let c = collapse(f);
    (c, lines_changed(ls) || !(content.len() > 0 && content.last() == '\n') || c != f)
}

} // verus!
