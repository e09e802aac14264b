//! The issues of a verification, as an interactive dashboard shows them.

use vstd::prelude::*;
use crate::commands::verify::{VerificationPhase, VerificationResult, passed_of};
use crate::text::{decimal, owned, push_str, spec_decimal, str_eq, strs};

verus! {

/// Severity of an issue, from the least to the most serious.
#[derive(Debug, Clone, Copy, PartialEq, Eq, Structural, PartialOrd, Ord)]
pub enum Severity {
    Hint,
    Info,
    Warning,
    Error,
}

impl Severity {
    /// The emoji of the severity.
    pub fn icon(&self) -> (s: &'static str)
        ensures
            s@ == match *self {
                Severity::Error => "❌"@,
                Severity::Warning => "⚠️"@,
                Severity::Info => "ℹ️"@,
                Severity::Hint => "💡"@,
            },
    {
        match self {
            Severity::Error => "❌",
            Severity::Warning => "⚠️",
            Severity::Info => "ℹ️",
            Severity::Hint => "💡",
        }
    }
}

/// An issue of a phase.
#[derive(Debug, Clone)]
pub struct Issue {
    pub id: String,
    pub message: String,
    pub severity: Severity,
    pub fixable: bool,
    pub phase: u8,
    pub file: Option<String>,
}

/// An issue as (id, message, severity, fixable, phase).
pub type IssueView = (Seq<char>, Seq<char>, Severity, bool, u8);

/// The view of an issue.
pub open spec fn issue_view(i: Issue) -> IssueView {
    (i.id@, i.message@, i.severity, i.fixable, i.phase)
}

/// The views of issues.
pub open spec fn issues_view(v: Seq<Issue>) -> Seq<IssueView> {
    v.map_values(|i: Issue| issue_view(i))
}

/// Two decimal digits at least.
pub open spec fn two_digits(n: nat) -> Seq<char> {
    if n < 10 { seq!['0'] + spec_decimal(n) } else { spec_decimal(n) }
}

/// The issues of messages with one id, severity and fixability.
pub open spec fn issues_of(ms: Seq<Seq<char>>, id: Seq<char>, sev: Severity, fixable: bool, phase: u8) -> Seq<IssueView> {
    ms.map_values(|m: Seq<char>| (id, m, sev, fixable, phase))
}

/// The issues of a phase: its errors (ids `E<nn>`, not fixable), then its
/// warnings (ids `W<nn>`, fixable).
pub open spec fn phase_issues(p: VerificationPhase) -> Seq<IssueView> {
    issues_of(strs(p.errors@), seq!['E'] + two_digits(p.id as nat), Severity::Error, false, p.id)
        + issues_of(strs(p.warnings@), seq!['W'] + two_digits(p.id as nat), Severity::Warning, true, p.id)
}

/// The issues of the phases, in order.
pub open spec fn all_issues(ps: Seq<VerificationPhase>) -> Seq<IssueView>
    decreases ps.len(),
{
    if ps.len() == 0 { Seq::empty() } else { all_issues(ps.drop_last()) + phase_issues(ps.last()) }
}

/// The id of an issue: a letter and the phase in two digits.
fn issue_id(letter: &str, phase: u8) -> (s: String)
    requires
        letter@.len() == 1,
    ensures
        s@ == letter@ + two_digits(phase as nat),
{
    let mut s = owned(letter);
    if phase < 10 {
        push_str(&mut s, "0");
        proof {
            reveal_strlit("0");
        }
    }
    push_str(&mut s, decimal(phase as usize).as_str());
    s
}

/// No issue of `v` names a file.
pub open spec fn no_files(v: Seq<Issue>) -> bool {
    forall|k: int| 0 <= k < v.len() ==> (#[trigger] v[k]).file is None
}

/// Adds issues for messages.
fn push_issues(out: &mut Vec<Issue>, ms: &Vec<String>, letter: &str, sev: Severity, fixable: bool, phase: u8)
    requires
        letter@.len() == 1,
    ensures
        issues_view(final(out)@) == issues_view(old(out)@) + issues_of(strs(ms@), letter@ + two_digits(phase as nat), sev, fixable, phase),
        no_files(old(out)@) ==> no_files(final(out)@),
{
    let ghost o0 = issues_view(out@);
    let ghost id = letter@ + two_digits(phase as nat);
    let mut i: usize = 0;
    while i < ms.len()
        invariant
            i <= ms@.len(),
            letter@.len() == 1,
            id == letter@ + two_digits(phase as nat),
            issues_view(out@) == o0 + issues_of(strs(ms@).subrange(0, i as int), id, sev, fixable, phase),
            no_files(old(out)@) ==> no_files(out@),
        decreases ms@.len() - i,
    {
        let ghost before = issues_view(out@);
        out.push(Issue {
            id: issue_id(letter, phase),
            message: owned(ms[i].as_str()),
            severity: sev,
            fixable,
            phase,
            file: None,
        });
        assert(issues_of(strs(ms@).subrange(0, i + 1), id, sev, fixable, phase)
            =~= issues_of(strs(ms@).subrange(0, i as int), id, sev, fixable, phase).push((id, ms@[i as int]@, sev, fixable, phase)));
        assert(issues_view(out@) =~= before.push((id, ms@[i as int]@, sev, fixable, phase)));
        assert(out@.last().file is None);
        i = i + 1;
    }
    assert(strs(ms@).subrange(0, ms@.len() as int) =~= strs(ms@));
}

impl Issue {
    /// The issues of a phase (see [`phase_issues`]); none names a file.
    pub fn from_phase(phase: &VerificationPhase) -> (v: Vec<Issue>)
        ensures
            issues_view(v@) == phase_issues(*phase),
            no_files(v@),
    {
        let mut v: Vec<Issue> = Vec::new();
        proof {
            reveal_strlit("E");
            reveal_strlit("W");
        }
        assert(issues_view(v@) =~= Seq::<IssueView>::empty());
        push_issues(&mut v, &phase.errors, "E", Severity::Error, false, phase.id);
        push_issues(&mut v, &phase.warnings, "W", Severity::Warning, true, phase.id);
        assert("E"@ =~= seq!['E']);
        assert("W"@ =~= seq!['W']);
        v
    }
}

/// Which issues are listed.
#[derive(Debug, Clone, Copy, PartialEq, Eq, Structural)]
pub enum FilterMode {
    All,
    Errors,
    Warnings,
    Fixable,
}

impl FilterMode {
    /// The filter a name selects (`errors`, `warnings`, `fixable`; any other
    /// name lists all).
    pub fn from_name(name: &str) -> (f: FilterMode)
        ensures
            f == if name@ == "errors"@ { FilterMode::Errors } else if name@ == "warnings"@ { FilterMode::Warnings }
                else if name@ == "fixable"@ { FilterMode::Fixable } else { FilterMode::All },
    {
        if str_eq(name, "errors") {
            FilterMode::Errors
        } else if str_eq(name, "warnings") {
            FilterMode::Warnings
        } else if str_eq(name, "fixable") {
            FilterMode::Fixable
        } else {
            FilterMode::All
        }
    }
}

/// An issue passes a filter.
pub open spec fn passes(f: FilterMode, i: IssueView) -> bool {
    match f {
        FilterMode::All => true,
        FilterMode::Errors => i.2 == Severity::Error,
        FilterMode::Warnings => i.2 == Severity::Warning,
        FilterMode::Fixable => i.3,
    }
}

/// A key of the dashboard.
#[derive(Debug, Clone, Copy, PartialEq, Eq, Structural)]
pub enum DashKey {
    Quit,
    Down,
    Up,
    ShowAll,
    ShowErrors,
    ShowWarnings,
    ShowFixable,
    Other,
}

/// The state of the dashboard.
#[derive(Debug, Clone)]
pub struct DashboardApp {
    pub issues: Vec<Issue>,
    pub selected: Option<usize>,
    pub filter: FilterMode,
    pub should_quit: bool,
    pub total_errors: usize,
    pub total_warnings: usize,
    pub phases_passed: usize,
    pub phases_total: usize,
}

impl DashboardApp {
    /// The dashboard of a verification: every issue of every phase, the
    /// first one selected, all shown.
    pub fn new(result: &VerificationResult) -> (a: DashboardApp)
        ensures
            issues_view(a.issues@) == all_issues(result.phases@),
            a.selected == if a.issues@.len() > 0 { Some(0usize) } else { None },
            a.filter == FilterMode::All,
            !a.should_quit,
            a.total_errors == result.total_errors,
            a.total_warnings == result.total_warnings,
            a.phases_passed == passed_of(result.phases@),
            a.phases_total == result.phases@.len(),
            no_files(a.issues@),
    {
        let mut issues: Vec<Issue> = Vec::new();
        let mut i: usize = 0;
        assert(issues_view(issues@) =~= all_issues(result.phases@.subrange(0, 0)));
        while i < result.phases.len()
            invariant
                i <= result.phases@.len(),
                issues_view(issues@) == all_issues(result.phases@.subrange(0, i as int)),
                no_files(issues@),
            decreases result.phases@.len() - i,
        {
            let mut more = Issue::from_phase(&result.phases[i]);
            let ghost before = issues_view(issues@);
            let ghost mv = issues_view(more@);
            assert(issues_view(issues@) + issues_view(more@) == before + mv);
            while more.len() > 0
                invariant
                    issues_view(issues@) + issues_view(more@) == before + mv,
                    no_files(issues@),
                    no_files(more@),
                decreases more@.len(),
            {
                let ghost i0 = issues_view(issues@);
                let ghost m0 = issues_view(more@);
                let ghost mr = more@;
                let x = more.remove(0);
                assert(x == mr[0]);
                assert forall|k: int| 0 <= k < more@.len() implies (#[trigger] more@[k]).file is None by {
                    assert(more@[k] == mr[k + 1]);
                }
                issues.push(x);
                assert(issues_view(issues@) =~= i0.push(m0[0]));
                assert(issues_view(more@) =~= m0.drop_first());
                assert(i0.push(m0[0]) + m0.drop_first() =~= i0 + m0);
            }
            assert(issues_view(more@) =~= Seq::<IssueView>::empty());
            assert(issues_view(issues@) =~= before + mv);
            assert(result.phases@.subrange(0, i + 1).drop_last() =~= result.phases@.subrange(0, i as int));
            i = i + 1;
        }
        assert(result.phases@.subrange(0, result.phases@.len() as int) =~= result.phases@);
        let selected = if issues.len() > 0 { Some(0usize) } else { None };
        DashboardApp {
            issues,
            selected,
            filter: FilterMode::All,
            should_quit: false,
            total_errors: result.total_errors,
            total_warnings: result.total_warnings,
            phases_passed: result.phases_passed(),
            phases_total: result.phases.len(),
        }
    }
}

/// The issues that pass a filter, in order.
pub open spec fn filtered(f: FilterMode, v: Seq<IssueView>) -> Seq<IssueView> {
    v.filter(|i: IssueView| passes(f, i))
}

/// A copy of an issue.
fn copy_issue(i: &Issue) -> (c: Issue)
    ensures
        issue_view(c) == issue_view(*i),
{
    Issue {
        id: owned(i.id.as_str()),
        message: owned(i.message.as_str()),
        severity: i.severity,
        fixable: i.fixable,
        phase: i.phase,
        file: match &i.file { Some(f) => Some(owned(f.as_str())), None => None },
    }
}

/// Whether an issue passes a filter.
fn passes_exec(f: FilterMode, i: &Issue) -> (r: bool)
    ensures
        r == passes(f, issue_view(*i)),
{
    match f {
        FilterMode::All => true,
        FilterMode::Errors => i.severity == Severity::Error,
        FilterMode::Warnings => i.severity == Severity::Warning,
        FilterMode::Fixable => i.fixable,
    }
}

impl DashboardApp {
    /// The issues the filter lets through, in order.
    pub fn filtered_issues(&self) -> (v: Vec<Issue>)
        ensures
            issues_view(v@) == filtered(self.filter, issues_view(self.issues@)),
    {
        let ghost iv = issues_view(self.issues@);
        let mut v: Vec<Issue> = Vec::new();
        let mut i: usize = 0;
        assert(issues_view(v@) =~= iv.subrange(0, 0).filter(|x: IssueView| passes(self.filter, x)));
        while i < self.issues.len()
            invariant
                i <= self.issues@.len(),
                iv == issues_view(self.issues@),
                issues_view(v@) == iv.subrange(0, i as int).filter(|x: IssueView| passes(self.filter, x)),
            decreases self.issues@.len() - i,
        {
            proof {
                let sub = iv.subrange(0, i + 1);
                assert(sub.drop_last() =~= iv.subrange(0, i as int));
                reveal_with_fuel(Seq::<_>::filter, 1);
            }
            if passes_exec(self.filter, &self.issues[i]) {
                let ghost v0 = issues_view(v@);
                v.push(copy_issue(&self.issues[i]));
                assert(issues_view(v@) =~= v0.push(iv[i as int]));
            }
            i = i + 1;
        }
        assert(iv.subrange(0, self.issues@.len() as int) =~= iv);
        v
    }

    /// How many issues the filter lets through.
    pub fn filtered_count(&self) -> (n: usize)
        ensures
            n == filtered(self.filter, issues_view(self.issues@)).len(),
    {
        let v = self.filtered_issues();
        assert(issues_view(v@).len() == v@.len());
        v.len()
    }

    /// Selects the next listed issue, wrapping around; nothing changes
    /// when none is listed.
    pub fn next(&mut self)
        ensures
            ({
                let n = filtered(old(self).filter, issues_view(old(self).issues@)).len();
                final(self).selected == if n == 0 { old(self).selected } else {
                    match old(self).selected { Some(i) => Some(((i + 1) % n as int) as usize), None => Some(0usize) }
                }
            }),
            final(self).issues@ == old(self).issues@,
            final(self).filter == old(self).filter,
            final(self).should_quit == old(self).should_quit,
    {
        let count = self.filtered_count();
        if count == 0 {
            return;
        }
        let i = match self.selected {
            Some(i) => if i < usize::MAX { (i + 1) % count } else { ((i % count) + 1) % count },
            None => 0,
        };
        proof {
            if let Some(j) = old(self).selected {
                if j == usize::MAX {
                    assert(((j % count) + 1) % (count as int) == (j + 1) % (count as int)) by (nonlinear_arith)
                        requires count > 0;
                }
            }
        }
        self.selected = Some(i);
    }

    /// Selects the previous listed issue, wrapping around; nothing changes
    /// when none is listed.
    pub fn previous(&mut self)
        ensures
            ({
                let n = filtered(old(self).filter, issues_view(old(self).issues@)).len();
                final(self).selected == if n == 0 { old(self).selected } else {
                    match old(self).selected { Some(i) => Some(if i == 0 { (n - 1) as usize } else { (i - 1) as usize }), None => Some(0usize) }
                }
            }),
            final(self).issues@ == old(self).issues@,
            final(self).filter == old(self).filter,
            final(self).should_quit == old(self).should_quit,
    {
        let count = self.filtered_count();
        if count == 0 {
            return;
        }
        let i = match self.selected {
            Some(i) => if i == 0 { count - 1 } else { i - 1 },
            None => 0,
        };
        self.selected = Some(i);
    }

    /// Acts on a key: quit, move the selection, or change the filter.
    pub fn apply_key(&mut self, key: DashKey)
        ensures
            final(self).issues@ == old(self).issues@,
            final(self).should_quit == (old(self).should_quit || key == DashKey::Quit),
            final(self).filter == match key {
                DashKey::ShowAll => FilterMode::All,
                DashKey::ShowErrors => FilterMode::Errors,
                DashKey::ShowWarnings => FilterMode::Warnings,
                DashKey::ShowFixable => FilterMode::Fixable,
                _ => old(self).filter,
            },
            !(key == DashKey::Down || key == DashKey::Up) ==> final(self).selected == old(self).selected,
    {
        match key {
            DashKey::Quit => { self.should_quit = true; },
            DashKey::Down => { self.next(); },
            DashKey::Up => { self.previous(); },
            DashKey::ShowAll => { self.filter = FilterMode::All; },
            DashKey::ShowErrors => { self.filter = FilterMode::Errors; },
            DashKey::ShowWarnings => { self.filter = FilterMode::Warnings; },
            DashKey::ShowFixable => { self.filter = FilterMode::Fixable; },
            DashKey::Other => {},
        }
    }
}

/// Options of the dashboard command.
#[derive(Debug, Clone)]
pub struct DashboardCommand {
    pub path: Option<String>,
    pub filter: String,
    pub quick: bool,
}

} // verus!
