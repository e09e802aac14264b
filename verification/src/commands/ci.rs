//! Checks run in continuous integration.

use vstd::prelude::*;
use crate::text::owned;

verus! {

/// One CI check.
#[derive(Debug, Clone)]
pub struct CiCheck {
    pub name: String,
    pub passed: bool,
    pub message: String,
    pub duration_ms: u64,
}

impl CiCheck {
    pub fn pass(name: &str, message: &str, duration_ms: u64) -> (c: CiCheck)
        ensures
            c.name@ == name@,
            c.passed,
            c.message@ == message@,
            c.duration_ms == duration_ms,
    {
        CiCheck { name: owned(name), passed: true, message: owned(message), duration_ms }
    }

    pub fn fail(name: &str, message: &str, duration_ms: u64) -> (c: CiCheck)
        ensures
            c.name@ == name@,
            !c.passed,
            c.message@ == message@,
            c.duration_ms == duration_ms,
    {
        CiCheck { name: owned(name), passed: false, message: owned(message), duration_ms }
    }
}

/// Outcome of a CI run.
#[derive(Debug, Clone)]
pub struct CiResult {
    pub checks: Vec<CiCheck>,
    pub all_passed: bool,
    pub total_duration_ms: u64,
}

/// Sum of the durations of the checks.
pub open spec fn total_duration(cs: Seq<CiCheck>) -> nat
    decreases cs.len(),
{
    if cs.len() == 0 { 0 } else { total_duration(cs.drop_last()) + cs.last().duration_ms as nat }
}

/// Whether every check passed.
pub open spec fn all_pass(cs: Seq<CiCheck>) -> bool {
    forall|i: int| 0 <= i < cs.len() ==> #[trigger] cs[i].passed
}

impl CiResult {
    /// Well-formed: the summary fields agree with the checks.
    pub open spec fn wf(&self) -> bool {
        &&& self.all_passed == all_pass(self.checks@)
        &&& self.total_duration_ms == total_duration(self.checks@)
    }

    pub fn new() -> (r: CiResult)
        ensures
            r.wf(),
            r.checks@.len() == 0,
            r.all_passed,
            r.total_duration_ms == 0,
    {
        CiResult { checks: Vec::new(), all_passed: true, total_duration_ms: 0 }
    }

    pub fn add_check(&mut self, check: CiCheck)
        requires
            old(self).total_duration_ms + check.duration_ms <= u64::MAX,
        ensures
            final(self).checks@ == old(self).checks@.push(check),
            final(self).total_duration_ms == old(self).total_duration_ms + check.duration_ms,
            final(self).all_passed == (old(self).all_passed && check.passed),
            old(self).wf() ==> final(self).wf(),
    {
        self.total_duration_ms = self.total_duration_ms + check.duration_ms;
        if !check.passed {
            self.all_passed = false;
        }
        let ghost before = self.checks@;
        self.checks.push(check);
        proof {
            assert(self.checks@.drop_last() =~= before);
            if old(self).wf() && self.all_passed {
                assert forall|i: int| 0 <= i < self.checks@.len() implies #[trigger] self.checks@[i].passed by {
                    if i < before.len() {
                        assert(before[i] == self.checks@[i]);
                    }
                }
            }
            if old(self).wf() && !self.all_passed {
                if !self.checks@[before.len() as int].passed {
                } else {
                    let j = choose|j: int| 0 <= j < before.len() && !#[trigger] before[j].passed;
                    assert(self.checks@[j] == before[j]);
                }
            }
        }
    }

    /// 0 when every check passed, 1 otherwise.
    pub fn exit_code(&self) -> (c: i32)
        ensures
            c == (if self.all_passed { 0i32 } else { 1i32 }),
    {
        if self.all_passed { 0 } else { 1 }
    }
}

impl Default for CiResult {
    fn default() -> (r: CiResult)
        ensures
            r.wf(),
            r.checks@.len() == 0,
            r.all_passed,
            r.total_duration_ms == 0,
    {
        CiResult::new()
    }
}

/// Options of the CI command.
#[derive(Debug, Clone)]
pub struct CiCommand {
    pub path: Option<String>,
    pub strict: bool,
    pub json: bool,
}

impl CiCommand {
    /// Runs the CI checks: `lint`, `schema` and `links`, each passing.
    pub fn run(&self) -> (r: CiResult)
        ensures
            r.wf(),
            r.checks@.len() == 3,
            r.checks@[0].name@ == "lint"@ && r.checks@[0].message@ == "No issues"@ && r.checks@[0].duration_ms == 50,
            r.checks@[1].name@ == "schema"@ && r.checks@[1].message@ == "Valid"@ && r.checks@[1].duration_ms == 30,
            r.checks@[2].name@ == "links"@ && r.checks@[2].message@ == "All valid"@ && r.checks@[2].duration_ms == 100,
            r.all_passed,
            r.total_duration_ms == 180,
    {
        let mut result = CiResult::new();
        result.add_check(CiCheck::pass("lint", "No issues", 50));
        result.add_check(CiCheck::pass("schema", "Valid", 30));
        result.add_check(CiCheck::pass("links", "All valid", 100));
        result
    }
}

} // verus!
