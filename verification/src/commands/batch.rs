//! Operations applied to many documents at once.

use vstd::prelude::*;
use crate::patterns::{
    escape, group, is_match, replace_first, spec_group, spec_is_match, spec_regex_escape, spec_replace_first,
    spec_split_pieces, split_pieces, weave, weave_exec, RE_MODULE,
};
use crate::text::{
    chars_of, concat2, find, lines, owned, push_str, slice_to_vec, spec_contains, spec_find, spec_lines,
    spec_split_once, spec_starts_with, spec_trim, spec_words, split_once, starts_with, string_of, strs,
    trim, views, words,
};

verus! {

/// A batch operation.
#[derive(Debug, Clone, PartialEq)]
pub enum BatchOperation {
    UpdateFrontmatter { field: String, value: String },
    Rename { pattern: String, replacement: String },
    AddTag(String),
    RemoveTag(String),
    SetStatus(String),
}

/// Outcome for one item.
#[derive(Debug, Clone)]
pub struct BatchItemResult {
    pub path: String,
    pub success: bool,
    pub message: String,
}

/// Outcome of a batch.
#[derive(Debug, Clone)]
pub struct BatchResult {
    pub operation: String,
    pub items: Vec<BatchItemResult>,
    pub succeeded: usize,
    pub failed: usize,
}

/// Number of items with the given outcome.
pub open spec fn count_outcome(items: Seq<BatchItemResult>, ok: bool) -> nat
    decreases items.len(),
{
    if items.len() == 0 {
        0
    } else {
        count_outcome(items.drop_last(), ok) + (if items.last().success == ok { 1nat } else { 0nat })
    }
}

impl BatchResult {
    /// The counters agree with the items.
    pub open spec fn wf(&self) -> bool {
        &&& self.succeeded == count_outcome(self.items@, true)
        &&& self.failed == count_outcome(self.items@, false)
    }

    pub fn new(operation: &str) -> (r: BatchResult)
        ensures
            r.wf(),
            r.operation@ == operation@,
            r.items@.len() == 0,
            r.succeeded == 0,
            r.failed == 0,
    {
        BatchResult { operation: owned(operation), items: Vec::new(), succeeded: 0, failed: 0 }
    }

    pub fn add_success(&mut self, path: &str, message: &str)
        requires
            old(self).succeeded < usize::MAX,
        ensures
            final(self).operation == old(self).operation,
            final(self).items@.len() == old(self).items@.len() + 1,
            final(self).items@.drop_last() == old(self).items@,
            final(self).items@.last().path@ == path@,
            final(self).items@.last().success,
            final(self).items@.last().message@ == message@,
            final(self).succeeded == old(self).succeeded + 1,
            final(self).failed == old(self).failed,
            old(self).wf() ==> final(self).wf(),
    {
        let ghost before = self.items@;
        self.items.push(BatchItemResult { path: owned(path), success: true, message: owned(message) });
        assert(self.items@.drop_last() =~= before);
        self.succeeded = self.succeeded + 1;
    }

    pub fn add_failure(&mut self, path: &str, message: &str)
        requires
            old(self).failed < usize::MAX,
        ensures
            final(self).operation == old(self).operation,
            final(self).items@.len() == old(self).items@.len() + 1,
            final(self).items@.drop_last() == old(self).items@,
            final(self).items@.last().path@ == path@,
            !final(self).items@.last().success,
            final(self).items@.last().message@ == message@,
            final(self).failed == old(self).failed + 1,
            final(self).succeeded == old(self).succeeded,
            old(self).wf() ==> final(self).wf(),
    {
        let ghost before = self.items@;
        self.items.push(BatchItemResult { path: owned(path), success: false, message: owned(message) });
        assert(self.items@.drop_last() =~= before);
        self.failed = self.failed + 1;
    }
}

/// Options of the batch command.
#[derive(Debug, Clone)]
pub struct BatchCommand {
    pub path: Option<String>,
    pub field: Option<String>,
    pub value: Option<String>,
    pub module: Option<String>,
    pub dry_run: bool,
    pub file: Option<String>,
    pub jobs: usize,
    pub commands: Vec<String>,
    pub add_field: Option<String>,
    pub remove_field: Option<String>,
    pub filter: Option<String>,
    pub progress: bool,
}

/// A command read from a batch file.
#[derive(Debug, Clone)]
pub struct BatchCmd {
    pub name: String,
    pub args: Vec<String>,
}

/// The commands of a batch file: each line trimmed; empty lines and lines
/// starting with `#` skipped; the first word is the command's name and the
/// others its arguments.
pub open spec fn spec_batch_cmds(ls: Seq<Seq<char>>) -> Seq<(Seq<char>, Seq<Seq<char>>)>
    decreases ls.len(),
{
    if ls.len() == 0 {
        Seq::empty()
    } else {
        let prev = spec_batch_cmds(ls.drop_last());
        let t = spec_trim(ls.last());
        let w = spec_words(t);
        if t.len() == 0 || t[0] == '#' || w.len() == 0 {
            prev
        } else {
            prev.push((w[0], w.drop_first()))
        }
    }
}

/// The texts of batch commands.
pub open spec fn cmds_view(v: Seq<BatchCmd>) -> Seq<(Seq<char>, Seq<Seq<char>>)> {
    v.map_values(|c: BatchCmd| (c.name@, strs(c.args@)))
}

/// Parses the content of a batch file.
pub fn parse_batch_content(content: &str) -> (r: Vec<BatchCmd>)
    ensures
        cmds_view(r@) == spec_batch_cmds(spec_lines(content@)),
{
    let cs = chars_of(content);
    let ls = lines(&cs);
    let mut r: Vec<BatchCmd> = Vec::new();
    let mut i: usize = 0;
    while i < ls.len()
        invariant
            i <= ls@.len(),
            views(ls@) == spec_lines(content@),
            cmds_view(r@) == spec_batch_cmds(views(ls@).subrange(0, i as int)),
        decreases ls@.len() - i,
    {
        let ghost sub = views(ls@).subrange(0, i + 1);
        assert(sub.drop_last() =~= views(ls@).subrange(0, i as int));
        assert(sub.last() == ls@[i as int]@);
        let t = trim(ls[i].as_slice());
        if t.len() > 0 && t[0] != '#' {
            let mut w = words(&t);
            if w.len() > 0 {
                let ghost wv = strs(w@);
                let name = w.remove(0);
                assert(strs(w@) =~= wv.drop_first());
                let ghost before = r@;
                r.push(BatchCmd { name, args: w });
                assert(cmds_view(r@) =~= cmds_view(before).push((wv[0], wv.drop_first())));
            }
        }
        i = i + 1;
    }
    assert(views(ls@).subrange(0, ls@.len() as int) =~= views(ls@));
    r
}

impl BatchCommand {
    /// The name of the operation: `batch-file` when commands come from a
    /// file, `batch-inline` otherwise.
    pub fn operation_name(&self) -> (r: &'static str)
        ensures
            r@ == (if self.file is Some { "batch-file"@ } else { "batch-inline"@ }),
    {
        if self.file.is_some() { "batch-file" } else { "batch-inline" }
    }

    /// The inline commands, each without arguments.
    pub fn inline_commands(&self) -> (r: Vec<BatchCmd>)
        ensures
            r@.len() == self.commands@.len(),
            forall|i: int| 0 <= i < r@.len() ==> (#[trigger] r@[i]).name@ == self.commands@[i]@
                && r@[i].args@.len() == 0,
    {
        let mut r: Vec<BatchCmd> = Vec::new();
        let mut i: usize = 0;
        while i < self.commands.len()
            invariant
                i <= self.commands@.len(),
                r@.len() == i,
                forall|j: int| 0 <= j < i ==> (#[trigger] r@[j]).name@ == self.commands@[j]@
                    && r@[j].args@.len() == 0,
            decreases self.commands@.len() - i,
        {
            r.push(BatchCmd { name: owned(self.commands[i].as_str()), args: Vec::new() });
            i = i + 1;
        }
        r
    }
}

/// What follows the field name in the pattern of a front matter field.
pub const FIELD_VALUE_TAIL: &'static str = r#":\s*["']?[^"'\n]+["']?"#;

/// The field a front matter update sets (`status` by default).
pub open spec fn batch_field(cmd: BatchCommand) -> Seq<char> {
    match cmd.field { Some(f) => f@, None => "status"@ }
}

/// The value a front matter update sets (`draft` by default).
pub open spec fn batch_value(cmd: BatchCommand) -> Seq<char> {
    match cmd.value { Some(v) => v@, None => "draft"@ }
}

/// Whether a document passes the module filter: its `module:` value,
/// trimmed, contains the filter.
pub open spec fn module_passes(cmd: BatchCommand, content: Seq<char>) -> bool {
    match cmd.module {
        None => true,
        Some(m) => match spec_group(RE_MODULE@, content, 1) {
            Some(v) => spec_contains(spec_trim(v), m@),
            None => false,
        },
    }
}

/// The updated text of a document, when the update applies to it: the
/// first `field: value` line rewritten as `field: "value"`.
pub open spec fn spec_frontmatter_update(cmd: BatchCommand, content: Seq<char>) -> Option<Seq<char>> {
    let f = batch_field(cmd);
    let pattern = f + FIELD_VALUE_TAIL@;
    if !module_passes(cmd, content) {
        None
    } else if spec_is_match(pattern, content) {
        Some(spec_replace_first(pattern, content, f + ": \""@ + batch_value(cmd) + "\""@))
    } else {
        None
    }
}

impl BatchCommand {
    /// The field the front matter update sets.
    pub fn update_field_name(&self) -> (r: String)
        ensures
            r@ == batch_field(*self),
    {
        match &self.field { Some(f) => owned(f.as_str()), None => owned("status") }
    }

    /// The value the front matter update sets.
    pub fn update_value(&self) -> (r: String)
        ensures
            r@ == batch_value(*self),
    {
        match &self.value { Some(v) => owned(v.as_str()), None => owned("draft") }
    }

    /// The name of the front matter update: `update-` and the field.
    pub fn update_operation_name(&self) -> (r: String)
        ensures
            r@ == "update-"@ + batch_field(*self),
    {
        concat2("update-", self.update_field_name().as_str())
    }

    /// The message of an updated document: `field=value`.
    pub fn update_message(&self) -> (r: String)
        ensures
            r@ == batch_field(*self) + "="@ + batch_value(*self),
    {
        let mut m = self.update_field_name();
        push_str(&mut m, "=");
        push_str(&mut m, self.update_value().as_str());
        m
    }

    /// The front matter update on one document: the new text when it
    /// applies (see [`spec_frontmatter_update`]).
    pub fn frontmatter_update(&self, content: &str) -> (r: Option<String>)
        ensures
            match r {
                Some(t) => spec_frontmatter_update(*self, content@) == Some(t@),
                None => spec_frontmatter_update(*self, content@) is None,
            },
    {
        match &self.module {
            Some(m) => {
                match group(RE_MODULE, content, 1) {
                    Some(v) => {
                        if find(&trim(&chars_of(v.as_str())), &chars_of(m.as_str())).is_none() {
                            return None;
                        }
                    },
                    None => {
                        return None;
                    },
                }
            },
            None => {},
        }
        let f = self.update_field_name();
        let pattern = concat2(f.as_str(), FIELD_VALUE_TAIL);
        if is_match(pattern.as_str(), content) {
            let mut rep = concat2(f.as_str(), ": \"");
            push_str(&mut rep, self.update_value().as_str());
            push_str(&mut rep, "\"");
            Some(replace_first(pattern.as_str(), content, rep.as_str()))
        } else {
            None
        }
    }
}

/// What adding a field does to a document.
#[derive(Debug, Clone, PartialEq, Eq)]
pub enum FieldEdit {
    /// The document already has the field.
    Present,
    /// The new text, with the field added.
    Added(String),
    /// The document has no front matter: left alone.
    NoFrontmatter,
}

/// A document with `field: value` put on the line after the first `---`
/// line break.
pub open spec fn spec_insert_field(content: Seq<char>, field: Seq<char>, value: Seq<char>) -> Seq<char> {
    match spec_find(content, "---\n"@) {
        Some(i) => content.subrange(0, i) + "---\n"@ + field + ": "@ + value + "\n"@ + content.subrange(i + 4, content.len() as int),
        None => content,
    }
}

/// The field and value of an `--add-field` argument (`field=value`).
pub open spec fn spec_add_spec(cmd: BatchCommand) -> Option<(Seq<char>, Seq<char>)> {
    match cmd.add_field {
        Some(a) => spec_split_once(a@, '='),
        None => None,
    }
}

/// The pattern of a whole `field:` line.
pub open spec fn field_line_pattern(field: Seq<char>) -> Seq<char> {
    "(?m)^"@ + spec_regex_escape(field) + ":\\s*.*\\n?"@
}

/// A document with every `field:` line removed, when it has one.
pub open spec fn spec_remove_field(content: Seq<char>, field: Seq<char>) -> Option<Seq<char>> {
    let p = field_line_pattern(field);
    if spec_is_match(p, content) {
        Some(weave(spec_split_pieces(p, content), Seq::empty()))
    } else {
        None
    }
}

impl BatchCommand {
    /// The field and value of the `--add-field` argument, when it is given
    /// as `field=value`.
    pub fn add_field_spec(&self) -> (r: Option<(String, String)>)
        ensures
            match r {
                Some((f, v)) => spec_add_spec(*self) == Some((f@, v@)),
                None => spec_add_spec(*self) is None,
            },
    {
        match &self.add_field {
            Some(a) => split_once(a.as_str(), '='),
            None => None,
        }
    }

    /// Adding `field: value` to a document: nothing when it already has
    /// `field:` somewhere; otherwise, with a front matter, the field right
    /// after its opening line.
    pub fn add_field_to(content: &str, field: &str, value: &str) -> (r: FieldEdit)
        ensures
            spec_contains(content@, field@ + ":"@) ==> r == FieldEdit::Present,
            !spec_contains(content@, field@ + ":"@) && spec_starts_with(content@, "---"@)
                ==> (r matches FieldEdit::Added(t) && t@ == spec_insert_field(content@, field@, value@)),
            !spec_contains(content@, field@ + ":"@) && !spec_starts_with(content@, "---"@) ==> r == FieldEdit::NoFrontmatter,
    {
        let c = chars_of(content);
        let key = concat2(field, ":");
        if find(&c, &chars_of(key.as_str())).is_some() {
            return FieldEdit::Present;
        }
        if !starts_with(&c, &chars_of("---")) {
            return FieldEdit::NoFrontmatter;
        }
        let open = chars_of("---\n");
        proof {
            reveal_strlit("---\n");
        }
        match find(&c, &open) {
            Some(i) => {
                proof {
                    crate::text::lemma_find_from(c@, open@, 0);
                    assert(open@.len() == 4);
                    assert(crate::text::occurs_at(c@, open@, i as int));
                }
                let n = c.len();
                assert(i + 4 <= n);
                let mut t = string_of(&slice_to_vec(&c, 0, i));
                push_str(&mut t, "---\n");
                push_str(&mut t, field);
                push_str(&mut t, ": ");
                push_str(&mut t, value);
                push_str(&mut t, "\n");
                push_str(&mut t, string_of(&slice_to_vec(&c, i + 4, n)).as_str());
                FieldEdit::Added(t)
            },
            None => FieldEdit::Added(owned(content)),
        }
    }

    /// Every `field:` line of a document removed, when it has one.
    pub fn remove_field_from(content: &str, field: &str) -> (r: Option<String>)
        ensures
            match r {
                Some(t) => spec_remove_field(content@, field@) == Some(t@),
                None => spec_remove_field(content@, field@) is None,
            },
    {
        let mut p = owned("(?m)^");
        push_str(&mut p, escape(field).as_str());
        push_str(&mut p, ":\\s*.*\\n?");
        if is_match(p.as_str(), content) {
            let pieces = split_pieces(p.as_str(), content);
            let none: Vec<String> = Vec::new();
            assert(strs(none@) =~= Seq::<Seq<char>>::empty());
            Some(weave_exec(&pieces, &none))
        } else {
            None
        }
    }
}

} // verus!
