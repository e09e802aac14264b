//! Staged processing of a document.

use vstd::prelude::*;
use crate::links::group_or_empty;
use crate::patterns::{cap_at, captures_all, opt_strs, spec_captures_all, RE_MD_LINK};
use crate::text::{chars_of, concat2, decimal, owned, spec_decimal, spec_starts_with, spec_word_count, starts_with,
    str_eq, strs, word_count};

verus! {

/// Outcome of a stage.
#[derive(Debug, Clone)]
pub enum PipelineResult {
    /// Go on with the next stage.
    Continue,
    /// Stop the pipeline without error.
    Skip,
    /// Stop the pipeline with a message.
    Abort(String),
}

/// State handed from stage to stage.
#[derive(Debug, Clone)]
pub struct PipelineContext {
    pub path: String,
    pub content: String,
    pub metadata: Vec<(String, String)>,
    pub errors: Vec<String>,
    pub warnings: Vec<String>,
}

/// An outcome as a value: `None` goes on, `Some(None)` skips, `Some(Some(m))`
/// aborts with the message `m`.
pub open spec fn result_view(r: PipelineResult) -> Option<Option<Seq<char>>> {
    match r {
        PipelineResult::Continue => None,
        PipelineResult::Skip => Some(None),
        PipelineResult::Abort(m) => Some(Some(m@)),
    }
}

/// A context as a value: path, content, metadata, errors and warnings.
pub open spec fn ctx_view(c: PipelineContext) -> (Seq<char>, Seq<char>, Seq<(Seq<char>, Seq<char>)>, Seq<Seq<char>>, Seq<Seq<char>>) {
    (c.path@, c.content@, meta_view(c.metadata@), strs(c.errors@), strs(c.warnings@))
}

/// Key/value view of the metadata.
pub open spec fn meta_view(m: Seq<(String, String)>) -> Seq<(Seq<char>, Seq<char>)> {
    m.map_values(|p: (String, String)| (p.0@, p.1@))
}

/// Position of key `k` in the metadata, if present.
pub open spec fn meta_find(m: Seq<(Seq<char>, Seq<char>)>, k: Seq<char>) -> Option<int>
    decreases m.len(),
{
    if m.len() == 0 {
        None
    } else if m[0].0 == k {
        Some(0)
    } else {
        match meta_find(m.drop_first(), k) {
            Some(i) => Some(i + 1),
            None => None,
        }
    }
}

proof fn lemma_meta_find(m: Seq<(Seq<char>, Seq<char>)>, k: Seq<char>)
    ensures
        meta_find(m, k) matches Some(i) ==> 0 <= i < m.len() && m[i].0 == k,
    decreases m.len(),
{
    if m.len() > 0 {
        lemma_meta_find(m.drop_first(), k);
    }
}

/// The metadata with `k` set to `v` (replacing an existing value).
pub open spec fn meta_insert(m: Seq<(Seq<char>, Seq<char>)>, k: Seq<char>, v: Seq<char>) -> Seq<(Seq<char>, Seq<char>)> {
    match meta_find(m, k) {
        Some(i) => m.update(i, (k, v)),
        None => m.push((k, v)),
    }
}

impl PipelineContext {
    /// A context for `content` at `path`, without metadata or messages.
    pub fn new(path: String, content: String) -> (c: PipelineContext)
        ensures
            c.path == path,
            c.content == content,
            c.metadata@.len() == 0,
            c.errors@.len() == 0,
            c.warnings@.len() == 0,
    {
        PipelineContext { path, content, metadata: Vec::new(), errors: Vec::new(), warnings: Vec::new() }
    }

    pub fn add_error(&mut self, msg: &str)
        ensures
            final(self).errors@.len() == old(self).errors@.len() + 1,
            final(self).errors@.last()@ == msg@,
            final(self).errors@.drop_last() == old(self).errors@,
            final(self).warnings == old(self).warnings,
            final(self).metadata == old(self).metadata,
            final(self).content == old(self).content,
            final(self).path == old(self).path,
    {
        self.errors.push(owned(msg));
        assert(self.errors@.drop_last() =~= old(self).errors@);
    }

    pub fn add_warning(&mut self, msg: &str)
        ensures
            final(self).warnings@.len() == old(self).warnings@.len() + 1,
            final(self).warnings@.last()@ == msg@,
            final(self).warnings@.drop_last() == old(self).warnings@,
            final(self).errors == old(self).errors,
            final(self).metadata == old(self).metadata,
            final(self).content == old(self).content,
            final(self).path == old(self).path,
    {
        self.warnings.push(owned(msg));
        assert(self.warnings@.drop_last() =~= old(self).warnings@);
    }

    pub fn has_errors(&self) -> (r: bool)
        ensures
            r == (self.errors@.len() > 0),
    {
        self.errors.len() > 0
    }

    /// Value recorded for `key`.
    pub fn metadata_get(&self, key: &str) -> (r: Option<&String>)
        ensures
            match meta_find(meta_view(self.metadata@), key@) {
                Some(i) => r matches Some(v) && v@ == meta_view(self.metadata@)[i].1,
                None => r is None,
            },
    {
        match self.meta_position(key) {
            Some(i) => Some(&self.metadata[i].1),
            None => None,
        }
    }

    fn meta_position(&self, key: &str) -> (r: Option<usize>)
        ensures
            match r {
                Some(i) => meta_find(meta_view(self.metadata@), key@) == Some(i as int) && i < self.metadata@.len(),
                None => meta_find(meta_view(self.metadata@), key@) is None,
            },
    {
        let ghost m = meta_view(self.metadata@);
        proof { lemma_meta_find(m, key@); }
        let mut i: usize = 0;
        assert(m.subrange(0, m.len() as int) =~= m);
        while i < self.metadata.len()
            invariant
                i <= self.metadata@.len(),
                m == meta_view(self.metadata@),
                meta_find(m, key@) == match meta_find(m.subrange(i as int, m.len() as int), key@) {
                    Some(j) => Some(j + i),
                    None => None::<int>,
                },
            decreases self.metadata@.len() - i,
        {
            let ghost rest = m.subrange(i as int, m.len() as int);
            assert(rest.drop_first() =~= m.subrange(i + 1, m.len() as int));
            if str_eq(self.metadata[i].0.as_str(), key) {
                return Some(i);
            }
            i = i + 1;
        }
        None
    }

    /// Records `value` for `key`, replacing an earlier value.
    pub fn metadata_insert(&mut self, key: String, value: String)
        ensures
            meta_view(final(self).metadata@) == meta_insert(meta_view(old(self).metadata@), key@, value@),
            final(self).errors == old(self).errors,
            final(self).warnings == old(self).warnings,
            final(self).content == old(self).content,
            final(self).path == old(self).path,
    {
        let ghost m = meta_view(self.metadata@);
        let ghost kv = (key@, value@);
        match self.meta_position(key.as_str()) {
            Some(i) => {
                self.metadata.set(i, (key, value));
                assert(meta_view(self.metadata@) =~= m.update(i as int, kv));
            },
            None => {
                self.metadata.push((key, value));
                assert(meta_view(self.metadata@) =~= m.push(kv));
            },
        }
    }
}

/// A processing stage.
pub trait PipelineStage {
    /// What `process` answers on a context, and the context it leaves.
    spec fn outcome(&self, before: (Seq<char>, Seq<char>, Seq<(Seq<char>, Seq<char>)>, Seq<Seq<char>>, Seq<Seq<char>>))
        -> (Option<Option<Seq<char>>>, (Seq<char>, Seq<char>, Seq<(Seq<char>, Seq<char>)>, Seq<Seq<char>>, Seq<Seq<char>>));

    fn name(&self) -> &str;

    fn process(&self, ctx: &mut PipelineContext) -> (r: PipelineResult)
        ensures
            (result_view(r), ctx_view(*final(ctx))) == self.outcome(ctx_view(*old(ctx))),
    ;
}

/// The stages from the `i`-th on, run on the context `c`: each stage's
/// outcome, until one that does not go on; the last outcome and context.
pub open spec fn run_from(stages: Seq<Box<dyn PipelineStage>>, i: int,
    c: (Seq<char>, Seq<char>, Seq<(Seq<char>, Seq<char>)>, Seq<Seq<char>>, Seq<Seq<char>>))
    -> (Option<Option<Seq<char>>>, (Seq<char>, Seq<char>, Seq<(Seq<char>, Seq<char>)>, Seq<Seq<char>>, Seq<Seq<char>>))
    decreases stages.len() - i,
{
    if i < 0 || i >= stages.len() {
        (None, c)
    } else {
        let (r, c2) = stages[i].outcome(c);
        if r is None { run_from(stages, i + 1, c2) } else { (r, c2) }
    }
}

/// Sequence of stages.
pub struct Pipeline {
    stages: Vec<Box<dyn PipelineStage>>,
    name: String,
}

impl Pipeline {
    pub fn new(name: &str) -> (p: Pipeline)
        ensures
            p.stage_len() == 0,
            p.stage_seq().len() == 0,
    {
        Pipeline { stages: Vec::new(), name: owned(name) }
    }

    /// Number of stages.
    pub closed spec fn stage_len(&self) -> nat {
        self.stages@.len()
    }

    /// The stages, in the order they run.
    pub closed spec fn stage_seq(&self) -> Seq<Box<dyn PipelineStage>> {
        self.stages@
    }

    pub fn add_stage(&mut self, stage: Box<dyn PipelineStage>)
        ensures
            final(self).stage_seq() == old(self).stage_seq().push(stage),
    {
        self.stages.push(stage);
    }

    /// Runs the stages in order until one skips or aborts; the outcome is
    /// that of the stopping stage, or `Continue` when all stages ran.
    pub fn run(&self, ctx: &mut PipelineContext) -> (r: PipelineResult)
        ensures
            (result_view(r), ctx_view(*final(ctx))) == run_from(self.stage_seq(), 0, ctx_view(*old(ctx))),
    {
        let mut i: usize = 0;
        while i < self.stages.len()
            invariant
                i <= self.stages@.len(),
                run_from(self.stages@, 0, ctx_view(*old(ctx))) == run_from(self.stages@, i as int, ctx_view(*ctx)),
            decreases self.stages@.len() - i,
        {
            match self.stages[i].process(ctx) {
                PipelineResult::Continue => {},
                PipelineResult::Skip => { return PipelineResult::Skip; },
                PipelineResult::Abort(msg) => { return PipelineResult::Abort(msg); },
            }
            i = i + 1;
        }
        PipelineResult::Continue
    }

    pub fn stage_count(&self) -> (n: usize)
        ensures
            n == self.stage_len(),
    {
        self.stages.len()
    }
}

/// Stage that warns about content without frontmatter.
pub struct FrontmatterValidationStage;

impl FrontmatterValidationStage {
    /// Adds the warning `Missing frontmatter` when the content does not start with `---`.
    pub fn check(&self, ctx: &mut PipelineContext)
        ensures
            spec_starts_with(old(ctx).content@, "---"@) ==> *final(ctx) == *old(ctx),
            !spec_starts_with(old(ctx).content@, "---"@) ==> final(ctx).warnings@.len() == old(ctx).warnings@.len() + 1
                && final(ctx).warnings@.last()@ == "Missing frontmatter"@
                && final(ctx).warnings@.drop_last() == old(ctx).warnings@
                && final(ctx).errors == old(ctx).errors && final(ctx).metadata == old(ctx).metadata
                && final(ctx).content == old(ctx).content && final(ctx).path == old(ctx).path,
    {
        let c = chars_of(ctx.content.as_str());
        let d = chars_of("---");
        if !starts_with(&c, &d) {
            ctx.add_warning("Missing frontmatter");
        }
    }
}

/// A context after the front matter check: a warning is added when the
/// content does not start with `---`.
pub open spec fn after_frontmatter_check(c: (Seq<char>, Seq<char>, Seq<(Seq<char>, Seq<char>)>, Seq<Seq<char>>, Seq<Seq<char>>))
    -> (Seq<char>, Seq<char>, Seq<(Seq<char>, Seq<char>)>, Seq<Seq<char>>, Seq<Seq<char>>)
{
    if spec_starts_with(c.1, "---"@) { c } else { (c.0, c.1, c.2, c.3, c.4.push("Missing frontmatter"@)) }
}

impl PipelineStage for FrontmatterValidationStage {
    open spec fn outcome(&self, before: (Seq<char>, Seq<char>, Seq<(Seq<char>, Seq<char>)>, Seq<Seq<char>>, Seq<Seq<char>>))
        -> (Option<Option<Seq<char>>>, (Seq<char>, Seq<char>, Seq<(Seq<char>, Seq<char>)>, Seq<Seq<char>>, Seq<Seq<char>>))
    {
        (None, after_frontmatter_check(before))
    }

    fn name(&self) -> &str {
        "frontmatter_validation"
    }

    fn process(&self, ctx: &mut PipelineContext) -> (r: PipelineResult) {
        self.check(ctx);
        proof {
            if !spec_starts_with(old(ctx).content@, "---"@) {
                assert(strs(ctx.warnings@) =~= strs(old(ctx).warnings@).push("Missing frontmatter"@)) by {
                    assert(ctx.warnings@ =~= old(ctx).warnings@.push(ctx.warnings@.last()));
                }
            }
        }
        PipelineResult::Continue
    }
}

/// Stage that records the number of words under `word_count`.
pub struct WordCountStage;

impl WordCountStage {
    /// Records the whitespace-separated word count of the content.
    pub fn count(&self, ctx: &mut PipelineContext)
        ensures
            meta_view(final(ctx).metadata@) == meta_insert(meta_view(old(ctx).metadata@), "word_count"@,
                spec_decimal(spec_word_count(old(ctx).content@, false))),
            final(ctx).errors == old(ctx).errors,
            final(ctx).warnings == old(ctx).warnings,
            final(ctx).content == old(ctx).content,
            final(ctx).path == old(ctx).path,
    {
        let c = chars_of(ctx.content.as_str());
        let words = word_count(&c, false);
        ctx.metadata_insert(owned("word_count"), decimal(words));
    }
}

/// A context after the word count: `word_count` is set to the number of
/// whitespace-separated words of the content.
pub open spec fn after_word_count(c: (Seq<char>, Seq<char>, Seq<(Seq<char>, Seq<char>)>, Seq<Seq<char>>, Seq<Seq<char>>))
    -> (Seq<char>, Seq<char>, Seq<(Seq<char>, Seq<char>)>, Seq<Seq<char>>, Seq<Seq<char>>)
{
    (c.0, c.1, meta_insert(c.2, "word_count"@, spec_decimal(spec_word_count(c.1, false))), c.3, c.4)
}

impl PipelineStage for WordCountStage {
    open spec fn outcome(&self, before: (Seq<char>, Seq<char>, Seq<(Seq<char>, Seq<char>)>, Seq<Seq<char>>, Seq<Seq<char>>))
        -> (Option<Option<Seq<char>>>, (Seq<char>, Seq<char>, Seq<(Seq<char>, Seq<char>)>, Seq<Seq<char>>, Seq<Seq<char>>))
    {
        (None, after_word_count(before))
    }

    fn name(&self) -> &str {
        "word_count"
    }

    fn process(&self, ctx: &mut PipelineContext) -> (r: PipelineResult) {
        self.count(ctx);
        PipelineResult::Continue
    }
}

/// The targets (group 2) of the Markdown links `[text](target)` among the
/// matches `caps`, in order, leaving out those that start with `http`.
pub open spec fn local_md_targets(caps: Seq<Seq<Option<Seq<char>>>>) -> Seq<Seq<char>>
    decreases caps.len(),
{
    if caps.len() == 0 {
        Seq::empty()
    } else {
        let prev = local_md_targets(caps.drop_last());
        let t = group_or_empty(caps.last(), 2);
        if spec_starts_with(t, "http"@) { prev } else { prev.push(t) }
    }
}

/// The local Markdown link targets of a document.
pub open spec fn spec_md_link_targets(content: Seq<char>) -> Seq<Seq<char>> {
    local_md_targets(spec_captures_all(RE_MD_LINK@, content))
}

/// One warning `Broken link: <target>` for each target that does not exist,
/// in order.
pub open spec fn spec_broken_warnings(targets: Seq<Seq<char>>, exists: Seq<bool>) -> Seq<Seq<char>>
    decreases targets.len(),
{
    if targets.len() == 0 {
        Seq::empty()
    } else {
        let prev = spec_broken_warnings(targets.drop_last(), exists);
        if exists[targets.len() - 1] { prev } else { prev.push("Broken link: "@ + targets.last()) }
    }
}

/// Stage that warns about Markdown links whose target does not exist next to
/// the document. Whether a target exists is a question for the file system:
/// the caller answers it for each of [`LinkValidationStage::md_link_targets`].
pub struct LinkValidationStage;

impl LinkValidationStage {
    /// The local Markdown link targets of the content (see [`spec_md_link_targets`]).
    pub fn md_link_targets(content: &str) -> (r: Vec<String>)
        ensures
            strs(r@) == spec_md_link_targets(content@),
    {
        let caps = captures_all(RE_MD_LINK, content);
        let ghost cv = spec_captures_all(RE_MD_LINK@, content@);
        let mut out: Vec<String> = Vec::new();
        let mut j: usize = 0;
        assert(cv.subrange(0, 0) =~= Seq::<Seq<Option<Seq<char>>>>::empty());
        assert(strs(out@) =~= Seq::<Seq<char>>::empty());
        while j < caps.len()
            invariant
                j <= caps@.len(),
                caps@.map_values(|c: Vec<Option<String>>| opt_strs(c@)) == cv,
                cv == spec_captures_all(RE_MD_LINK@, content@),
                strs(out@) == local_md_targets(cv.subrange(0, j as int)),
            decreases caps@.len() - j,
        {
            assert(cv[j as int] == opt_strs(caps@[j as int]@));
            assert(cv.subrange(0, j + 1).drop_last() =~= cv.subrange(0, j as int));
            let target = match cap_at(&caps[j], 2) {
                Some(t) => t,
                None => String::new(),
            };
            let tc = chars_of(target.as_str());
            if !starts_with(&tc, &chars_of("http")) {
                let ghost before = strs(out@);
                out.push(target);
                assert(strs(out@) =~= before.push(group_or_empty(cv[j as int], 2)));
            }
            j = j + 1;
        }
        assert(cv.subrange(0, caps@.len() as int) =~= cv);
        out
    }

    /// The warnings for the targets that do not exist (`exists[i]` tells
    /// whether `targets[i]` does), in order.
    pub fn broken_link_warnings(targets: &Vec<String>, exists: &Vec<bool>) -> (r: Vec<String>)
        requires
            exists@.len() == targets@.len(),
        ensures
            strs(r@) == spec_broken_warnings(strs(targets@), exists@),
    {
        let ghost tv = strs(targets@);
        let mut out: Vec<String> = Vec::new();
        let mut i: usize = 0;
        assert(strs(out@) =~= Seq::<Seq<char>>::empty());
        assert(tv.subrange(0, 0) =~= Seq::<Seq<char>>::empty());
        while i < targets.len()
            invariant
                i <= targets@.len(),
                exists@.len() == targets@.len(),
                tv == strs(targets@),
                strs(out@) == spec_broken_warnings(tv.subrange(0, i as int), exists@),
            decreases targets@.len() - i,
        {
            assert(tv.subrange(0, i + 1).drop_last() =~= tv.subrange(0, i as int));
            assert(tv[i as int] == targets@[i as int]@);
            if !exists[i] {
                let w = concat2("Broken link: ", targets[i].as_str());
                let ghost before = strs(out@);
                out.push(w);
                assert(strs(out@) =~= before.push("Broken link: "@ + tv[i as int]));
            }
            i = i + 1;
        }
        assert(tv.subrange(0, targets@.len() as int) =~= tv);
        out
    }

    /// Adds to the context one warning for each local Markdown link target
    /// of its content that does not exist (`exists[i]` tells whether the
    /// `i`-th target does).
    pub fn report(&self, ctx: &mut PipelineContext, exists: &Vec<bool>)
        requires
            exists@.len() == spec_md_link_targets(old(ctx).content@).len(),
        ensures
            strs(final(ctx).warnings@) == strs(old(ctx).warnings@)
                + spec_broken_warnings(spec_md_link_targets(old(ctx).content@), exists@),
            final(ctx).errors == old(ctx).errors,
            final(ctx).metadata == old(ctx).metadata,
            final(ctx).content == old(ctx).content,
            final(ctx).path == old(ctx).path,
    {
        let targets = Self::md_link_targets(ctx.content.as_str());
        let warnings = Self::broken_link_warnings(&targets, exists);
        let ghost w0 = strs(ctx.warnings@);
        let ghost wv = strs(warnings@);
        let mut i: usize = 0;
        assert(wv.subrange(0, 0) =~= Seq::<Seq<char>>::empty());
        while i < warnings.len()
            invariant
                i <= warnings@.len(),
                wv == strs(warnings@),
                strs(ctx.warnings@) == w0 + wv.subrange(0, i as int),
                ctx.errors == old(ctx).errors,
                ctx.metadata == old(ctx).metadata,
                ctx.content == old(ctx).content,
                ctx.path == old(ctx).path,
            decreases warnings@.len() - i,
        {
            let ghost before = ctx.warnings@;
            ctx.add_warning(warnings[i].as_str());
            assert(ctx.warnings@ =~= before.push(ctx.warnings@.last()));
            assert(ctx.warnings@.last()@ == wv[i as int]);
            assert(strs(ctx.warnings@) =~= strs(before).push(wv[i as int]));
            assert(wv.subrange(0, i + 1) =~= wv.subrange(0, i as int).push(wv[i as int]));
            assert(strs(ctx.warnings@) =~= w0 + wv.subrange(0, i + 1));
            i = i + 1;
        }
        assert(wv.subrange(0, warnings@.len() as int) =~= wv);
    }
}

} // verus!
