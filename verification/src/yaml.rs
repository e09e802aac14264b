//! Frontmatter of Markdown documents: framing, field edits and word counts.
//!
//! Turning the YAML text of a frontmatter into a [`YamlFrontmatter`] is
//! done by the caller with a YAML library; this module finds the block,
//! edits fields in place and counts words of the body.

use vstd::prelude::*;
use crate::text::{
    chars_of, concat3, find, lemma_find_from, lemma_lines_total_len, lemma_trim_len, occurs_at, spec_find_from,
    lemma_word_count_le_len, lines, owned, push_str, slice_to_vec, spec_find, spec_lines,
    spec_starts_with, spec_total_len, spec_trim, spec_trim_start, spec_word_count, starts_with,
    string_of, trim, trim_start, views, word_count,
};
use crate::types::{spec_parse_id, DocumentId, OcError};

verus! {

/// Delimiter of a frontmatter block.
pub const FRONTMATTER_DELIMITER: &'static str = "---";

/// The delimiter as characters.
pub open spec fn delim() -> Seq<char> {
    seq!['-', '-', '-']
}

fn delim_chars() -> (d: [char; 3])
    ensures
        d@ == delim(),
{
    let d = ['-', '-', '-'];
    assert(d@ =~= delim());
    d
}

/// YAML frontmatter of a document.
#[derive(Debug, Clone)]
pub struct YamlFrontmatter {
    pub id: String,
    pub title: String,
    pub parent: Option<String>,
    pub breadcrumb: String,
    pub status: String,
    pub doc_type: Option<String>,
    pub created: Option<String>,
    pub last_updated: Option<String>,
    pub author: Option<String>,
    pub domain: Option<String>,
    pub actors: Option<Vec<String>>,
    pub tags: Option<Vec<String>>,
    pub priority: Option<String>,
    pub description: Option<String>,
    pub children_count: Option<usize>,
    pub descendants_count: Option<usize>,
    pub content_hash: Option<String>,
    pub references: Option<Vec<String>>,
    pub version: Option<String>,
}

impl Default for YamlFrontmatter {
    /// Empty frontmatter with status `draft`.
    fn default() -> (fm: Self)
        ensures
            fm.id@.len() == 0,
            fm.title@.len() == 0,
            fm.parent is None,
            fm.breadcrumb@.len() == 0,
            fm.status@ == seq!['d', 'r', 'a', 'f', 't'],
            fm.doc_type is None,
            fm.created is None,
            fm.last_updated is None,
            fm.author is None,
            fm.domain is None,
            fm.actors is None,
            fm.tags is None,
            fm.priority is None,
            fm.description is None,
            fm.children_count is None,
            fm.descendants_count is None,
            fm.content_hash is None,
            fm.references is None,
            fm.version is None,
    {
        YamlFrontmatter {
            id: String::new(),
            title: String::new(),
            parent: None,
            breadcrumb: String::new(),
            status: draft(),
            doc_type: None,
            created: None,
            last_updated: None,
            author: None,
            domain: None,
            actors: None,
            tags: None,
            priority: None,
            description: None,
            children_count: None,
            descendants_count: None,
            content_hash: None,
            references: None,
            version: None,
        }
    }
}

fn draft() -> (s: String)
    ensures
        s@ == seq!['d', 'r', 'a', 'f', 't'],
{
    let v = ['d', 'r', 'a', 'f', 't'];
    let s = string_of(&v);
    assert(s@ =~= seq!['d', 'r', 'a', 'f', 't']);
    s
}

/// Name of the `id` field.
pub open spec fn field_id() -> Seq<char> {
    seq!['i', 'd']
}

/// Name of the `title` field.
pub open spec fn field_title() -> Seq<char> {
    seq!['t', 'i', 't', 'l', 'e']
}

fn missing_id() -> (e: OcError)
    ensures
        e matches OcError::MissingField { field } && field@ == field_id(),
{
    let v = ['i', 'd'];
    let field = string_of(&v);
    assert(field@ =~= field_id());
    OcError::MissingField { field }
}

fn missing_title() -> (e: OcError)
    ensures
        e matches OcError::MissingField { field } && field@ == field_title(),
{
    let v = ['t', 'i', 't', 'l', 'e'];
    let field = string_of(&v);
    assert(field@ =~= field_title());
    OcError::MissingField { field }
}

/// The outcome of [`YamlFrontmatter::validate`] on given `id` and `title` texts.
pub open spec fn spec_validate(id: Seq<char>, title: Seq<char>) -> Option<Seq<char>> {
    if id.len() == 0 {
        Some(field_id())
    } else if title.len() == 0 {
        Some(field_title())
    } else {
        None
    }
}

impl YamlFrontmatter {
    /// Parses the `id` field as a document identifier.
    pub fn document_id(&self) -> (r: Result<DocumentId, OcError>)
        ensures
            r matches Ok(id) ==> spec_parse_id(self.id@) == Some(id@),
            r is Err ==> spec_parse_id(self.id@) is None,
    {
        DocumentId::parse(self.id.as_str())
    }

    /// Whether this is the master document (id `0`).
    pub fn is_master(&self) -> (r: bool)
        ensures
            r == (self.id@ == seq!['0']),
    {
        let c = chars_of(self.id.as_str());
        let r = c.len() == 1 && c[0] == '0';
        assert(r ==> c@ =~= seq!['0']);
        r
    }

    /// Checks the required fields: `id` and `title` must be non-empty and
    /// `id` must be a valid document identifier.
    pub fn validate(&self) -> (r: Result<(), OcError>)
        ensures
            r is Ok <==> (self.id@.len() > 0 && self.title@.len() > 0
                && spec_parse_id(self.id@) is Some),
            self.id@.len() == 0 ==> (r matches Err(OcError::MissingField { field })
                && field@ == field_id()),
            self.id@.len() > 0 && self.title@.len() == 0 ==> (r matches Err(
                OcError::MissingField { field }) && field@ == field_title()),
            self.id@.len() > 0 && self.title@.len() > 0 && spec_parse_id(self.id@) is None
                ==> (r matches Err(OcError::InvalidDocumentId { value }) && value@ == self.id@),
    {
        if self.id.as_str().unicode_len() == 0 {
            return Err(missing_id());
        }
        if self.title.as_str().unicode_len() == 0 {
            return Err(missing_title());
        }
        match DocumentId::parse(self.id.as_str()) {
            Ok(_) => Ok(()),
            Err(e) => Err(e),
        }
    }

    /// A builder with no field set.
    pub fn builder() -> (b: YamlFrontmatterBuilder)
        ensures
            b.is_blank(),
    {
        YamlFrontmatterBuilder::new()
    }
}

/// Builder for [`YamlFrontmatter`].
#[derive(Debug)]
pub struct YamlFrontmatterBuilder {
    pub id: Option<String>,
    pub title: Option<String>,
    pub parent: Option<String>,
    pub breadcrumb: Option<String>,
    pub status: Option<String>,
    pub doc_type: Option<String>,
    pub created: Option<String>,
    pub last_updated: Option<String>,
    pub author: Option<String>,
    pub domain: Option<String>,
    pub tags: Option<Vec<String>>,
    pub priority: Option<String>,
    pub description: Option<String>,
}

/// The text held by an optional string, if any.
pub open spec fn opt_view(o: Option<String>) -> Option<Seq<char>> {
    match o {
        Some(s) => Some(s@),
        None => None,
    }
}

impl YamlFrontmatterBuilder {
    /// No field of the builder is set.
    pub open spec fn is_blank(&self) -> bool {
        &&& self.id is None
        &&& self.title is None
        &&& self.parent is None
        &&& self.breadcrumb is None
        &&& self.status is None
        &&& self.doc_type is None
        &&& self.created is None
        &&& self.last_updated is None
        &&& self.author is None
        &&& self.domain is None
        &&& self.tags is None
        &&& self.priority is None
        &&& self.description is None
    }

    /// The frontmatter that `build_unchecked` yields from this builder.
    pub open spec fn spec_unchecked(&self, fm: YamlFrontmatter) -> bool {
        &&& fm.id@ == (match self.id { Some(s) => s@, None => Seq::empty() })
        &&& fm.title@ == (match self.title { Some(s) => s@, None => Seq::empty() })
        &&& opt_view(fm.parent) == opt_view(self.parent)
        &&& fm.breadcrumb@ == (match self.breadcrumb { Some(s) => s@, None => Seq::empty() })
        &&& fm.status@ == (match self.status { Some(s) => s@, None => seq!['d', 'r', 'a', 'f', 't'] })
        &&& opt_view(fm.doc_type) == opt_view(self.doc_type)
        &&& opt_view(fm.created) == opt_view(self.created)
        &&& opt_view(fm.last_updated) == opt_view(self.last_updated)
        &&& opt_view(fm.author) == opt_view(self.author)
        &&& opt_view(fm.domain) == opt_view(self.domain)
        &&& fm.actors is None
        &&& fm.tags == self.tags
        &&& opt_view(fm.priority) == opt_view(self.priority)
        &&& opt_view(fm.description) == opt_view(self.description)
        &&& fm.children_count is None
        &&& fm.descendants_count is None
        &&& fm.content_hash is None
        &&& fm.references is None
        &&& fm.version is None
    }

    pub fn new() -> (b: Self)
        ensures
            b.is_blank(),
    {
        YamlFrontmatterBuilder {
            id: None,
            title: None,
            parent: None,
            breadcrumb: None,
            status: None,
            doc_type: None,
            created: None,
            last_updated: None,
            author: None,
            domain: None,
            tags: None,
            priority: None,
            description: None,
        }
    }

    pub fn id(self, id: &str) -> (b: Self)
        ensures
            opt_view(b.id) == Some(id@),
            b == (Self { id: b.id, ..self }),
    {
        Self { id: Some(owned(id)), ..self }
    }

    pub fn title(self, title: &str) -> (b: Self)
        ensures
            opt_view(b.title) == Some(title@),
            b == (Self { title: b.title, ..self }),
    {
        Self { title: Some(owned(title)), ..self }
    }

    pub fn parent(self, parent: &str) -> (b: Self)
        ensures
            opt_view(b.parent) == Some(parent@),
            b == (Self { parent: b.parent, ..self }),
    {
        Self { parent: Some(owned(parent)), ..self }
    }

    pub fn breadcrumb(self, bc: &str) -> (b: Self)
        ensures
            opt_view(b.breadcrumb) == Some(bc@),
            b == (Self { breadcrumb: b.breadcrumb, ..self }),
    {
        Self { breadcrumb: Some(owned(bc)), ..self }
    }

    pub fn status(self, status: &str) -> (b: Self)
        ensures
            opt_view(b.status) == Some(status@),
            b == (Self { status: b.status, ..self }),
    {
        Self { status: Some(owned(status)), ..self }
    }

    pub fn doc_type(self, t: &str) -> (b: Self)
        ensures
            opt_view(b.doc_type) == Some(t@),
            b == (Self { doc_type: b.doc_type, ..self }),
    {
        Self { doc_type: Some(owned(t)), ..self }
    }

    pub fn created(self, date: &str) -> (b: Self)
        ensures
            opt_view(b.created) == Some(date@),
            b == (Self { created: b.created, ..self }),
    {
        Self { created: Some(owned(date)), ..self }
    }

    pub fn last_updated(self, date: &str) -> (b: Self)
        ensures
            opt_view(b.last_updated) == Some(date@),
            b == (Self { last_updated: b.last_updated, ..self }),
    {
        Self { last_updated: Some(owned(date)), ..self }
    }

    pub fn author(self, author: &str) -> (b: Self)
        ensures
            opt_view(b.author) == Some(author@),
            b == (Self { author: b.author, ..self }),
    {
        Self { author: Some(owned(author)), ..self }
    }

    pub fn domain(self, domain: &str) -> (b: Self)
        ensures
            opt_view(b.domain) == Some(domain@),
            b == (Self { domain: b.domain, ..self }),
    {
        Self { domain: Some(owned(domain)), ..self }
    }

    pub fn tags(self, tags: Vec<String>) -> (b: Self)
        ensures
            b == (Self { tags: Some(tags), ..self }),
    {
        Self { tags: Some(tags), ..self }
    }

    pub fn priority(self, priority: &str) -> (b: Self)
        ensures
            opt_view(b.priority) == Some(priority@),
            b == (Self { priority: b.priority, ..self }),
    {
        Self { priority: Some(owned(priority)), ..self }
    }

    pub fn description(self, desc: &str) -> (b: Self)
        ensures
            opt_view(b.description) == Some(desc@),
            b == (Self { description: b.description, ..self }),
    {
        Self { description: Some(owned(desc)), ..self }
    }

    /// Builds the frontmatter without checking it: unset `id`, `title` and
    /// `breadcrumb` become empty, an unset `status` becomes `draft`.
    pub fn build_unchecked(self) -> (fm: YamlFrontmatter)
        ensures
            self.spec_unchecked(fm),
    {
        let id = match self.id { Some(s) => s, None => String::new() };
        let title = match self.title { Some(s) => s, None => String::new() };
        let breadcrumb = match self.breadcrumb { Some(s) => s, None => String::new() };
        let status = match self.status { Some(s) => s, None => draft() };
        YamlFrontmatter {
            id,
            title,
            parent: self.parent,
            breadcrumb,
            status,
            doc_type: self.doc_type,
            created: self.created,
            last_updated: self.last_updated,
            author: self.author,
            domain: self.domain,
            actors: None,
            tags: self.tags,
            priority: self.priority,
            description: self.description,
            children_count: None,
            descendants_count: None,
            content_hash: None,
            references: None,
            version: None,
        }
    }

    /// Builds the frontmatter and validates it: `id` and `title` must have
    /// been set, and the result must pass [`YamlFrontmatter::validate`].
    pub fn build(self) -> (r: Result<YamlFrontmatter, OcError>)
        ensures
            self.id is None ==> (r matches Err(OcError::MissingField { field })
                && field@ == field_id()),
            self.id is Some && self.title is None ==> (r matches Err(
                OcError::MissingField { field }) && field@ == field_title()),
            self.id is Some && self.title is Some ==> match r {
                Ok(fm) => self.spec_unchecked(fm) && fm.id@.len() > 0 && fm.title@.len() > 0
                    && spec_parse_id(fm.id@) is Some,
                Err(_) => {
                    let i = self.id.unwrap()@;
                    let t = self.title.unwrap()@;
                    i.len() == 0 || t.len() == 0 || spec_parse_id(i) is None
                },
            },
    {
        if self.id.is_none() {
            return Err(missing_id());
        }
        if self.title.is_none() {
            return Err(missing_title());
        }
        let ghost b = self;
        let fm = self.build_unchecked();
        match fm.validate() {
            Ok(()) => Ok(fm),
            Err(e) => Err(e),
        }
    }
}

/// A parsed Markdown document.
#[derive(Debug)]
pub struct ParsedDocument {
    pub frontmatter: YamlFrontmatter,
    pub yaml_raw: String,
    pub body: String,
}

/// The frontmatter block and the body of a document, as text.
#[derive(Debug)]
pub struct FrontmatterParts {
    /// The YAML between the delimiters, trimmed.
    pub yaml_raw: String,
    /// The text after the closing delimiter, without leading whitespace.
    pub body: String,
}

/// The framing of a document: `Some((yaml, body))` when, after leading
/// whitespace, it opens with `---` and a second `---` follows.
pub open spec fn spec_frame(content: Seq<char>) -> Option<(Seq<char>, Seq<char>)> {
    let t = spec_trim_start(content);
    if !spec_starts_with(t, delim()) {
        None
    } else {
        let after = t.subrange(3, t.len() as int);
        match spec_find(after, delim()) {
            Some(e) => {
                let body_start = 3 + e + 3;
                let body = if body_start < t.len() {
                    spec_trim_start(t.subrange(body_start, t.len() as int))
                } else {
                    Seq::empty()
                };
                Some((spec_trim(after.subrange(0, e)), body))
            },
            None => None,
        }
    }
}

/// Splits a document into its frontmatter text and its body.
pub fn split_frontmatter(content: &str) -> (r: Result<FrontmatterParts, OcError>)
    ensures
        match spec_frame(content@) {
            Some((y, b)) => r matches Ok(p) && p.yaml_raw@ == y && p.body@ == b,
            None => r matches Err(OcError::MissingFrontmatter),
        },
{
    let all = chars_of(content);
    let t = trim_start(&all);
    let d = delim_chars();
    if !starts_with(&t, &d) {
        return Err(OcError::MissingFrontmatter);
    }
    let after = slice_to_vec(&t, 3, t.len());
    match find(&after, &d) {
        Some(e) => {
            proof {
                lemma_find_from(after@, delim(), 0);
            }
            let yaml_chars = slice_to_vec(&after, 0, e);
            let yaml = trim(&yaml_chars);
            let body = if e + 6 < t.len() {
                let rest = slice_to_vec(&t, e + 6, t.len());
                trim_start(&rest)
            } else {
                Vec::new()
            };
            proof {
                if !(e + 6 < t@.len()) {
                    assert(body@ =~= Seq::<char>::empty());
                }
            }
            Ok(FrontmatterParts { yaml_raw: string_of(&yaml), body: string_of(&body) })
        },
        None => Err(OcError::MissingFrontmatter),
    }
}

/// `field: value` as text.
pub open spec fn spec_field_line(field: Seq<char>, value: Seq<char>) -> Seq<char> {
    field + seq![':', ' '] + value
}

/// The result of [`add_field`].
pub open spec fn spec_add_field(content: Seq<char>, field: Seq<char>, value: Seq<char>) -> Option<
    Seq<char>,
> {
    let t = spec_trim_start(content);
    if !spec_starts_with(t, delim()) {
        None
    } else {
        match spec_find(t.subrange(3, t.len() as int), delim()) {
            Some(e) => Some(t.subrange(0, 3 + e) + spec_field_line(field, value) + seq!['\n']
                + t.subrange(3 + e, t.len() as int)),
            None => None,
        }
    }
}

/// The result of [`update_field`].
pub open spec fn spec_update_field(content: Seq<char>, field: Seq<char>, value: Seq<char>) -> Option<
    Seq<char>,
> {
    let t = spec_trim_start(content);
    if !spec_starts_with(t, delim()) {
        None
    } else {
        match spec_find(t, field + seq![':']) {
            Some(fp) => {
                let after = t.subrange(fp, t.len() as int);
                let line_end = match spec_find(after, seq!['\n']) {
                    Some(k) => k,
                    None => after.len() as int,
                };
                Some(t.subrange(0, fp) + spec_field_line(field, value) + t.subrange(
                    fp + line_end,
                    t.len() as int,
                ))
            },
            None => spec_add_field(content, field, value),
        }
    }
}

pub proof fn lemma_find_from_at(s: Seq<char>, p: Seq<char>, i: int, k: int)
    requires
        0 <= i <= k,
        occurs_at(s, p, k),
        forall|j: int| i <= j < k ==> !occurs_at(s, p, j),
    ensures
        spec_find_from(s, p, i) == Some(k),
    decreases k - i,
{
    if i < k {
        assert(!occurs_at(s, p, i));
        lemma_find_from_at(s, p, i + 1, k);
    }
}

/// Updating a field that the front matter has, to a value without line
/// breaks, a second time with the same value changes nothing.
proof fn lemma_update_present_field_twice(content: Seq<char>, field: Seq<char>, value: Seq<char>)
    requires
        field.len() > 0,
        !field.contains('\n'),
        !value.contains('\n'),
        spec_update_field(content, field, value) is Some,
        spec_find(spec_trim_start(content), field + seq![':']) is Some,
    ensures
        spec_update_field(spec_update_field(content, field, value).unwrap(), field, value)
            == spec_update_field(content, field, value),
{
    let t = spec_trim_start(content);
    let pat = field + seq![':'];
    let fp = spec_find(t, pat).unwrap();
    lemma_find_from(t, pat, 0);
    let after = t.subrange(fp, t.len() as int);
    let nl = seq!['\n'];
    lemma_find_from(after, nl, 0);
    let le = match spec_find(after, nl) { Some(k) => k, None => after.len() as int };
    let line = spec_field_line(field, value);
    let c1 = t.subrange(0, fp) + line + t.subrange(fp + le, t.len() as int);
    assert(spec_update_field(content, field, value) == Some(c1));
    assert(t.subrange(fp, fp + pat.len()) == pat);
    // The line found holds no line break before the end of the field name.
    assert forall|i: int| 0 <= i < pat.len() implies after[i] != '\n' by {
        assert(after[i] == t[fp + i]);
        assert(t[fp + i] == t.subrange(fp, fp + pat.len())[i]);
        if i < field.len() {
            assert(pat[i] == field[i]);
        }
    }
    assert(le >= pat.len()) by {
        if le < pat.len() {
            if spec_find(after, nl) is Some {
                assert(after.subrange(le, le + 1) == nl);
                assert(after.subrange(le, le + 1)[0] == after[le]);
                assert(nl[0] == '\n');
                assert(after[le] == '\n');
            }
        }
    }
    // c1 agrees with t up to the end of the field name.
    assert forall|i: int| 0 <= i < fp + pat.len() implies #[trigger] c1[i] == t[i] by {
        if i >= fp {
            assert(c1[i] == line[i - fp]);
            assert(t[i] == t.subrange(fp, fp + pat.len())[i - fp]);
            if i - fp < field.len() {
                assert(line[i - fp] == field[i - fp]);
                assert(pat[i - fp] == field[i - fp]);
            } else {
                assert(line[i - fp] == ':');
                assert(pat[i - fp] == ':');
            }
        }
    }
    assert(spec_starts_with(t, delim()));
    assert(t.subrange(0, 3) == delim());
    assert(fp + pat.len() >= 4) by {
        let last = fp + pat.len() - 1;
        assert(t[last] == t.subrange(fp, fp + pat.len())[pat.len() - 1]);
        assert(pat[pat.len() - 1] == ':');
        if last < 3 {
            assert(t[last] == t.subrange(0, 3)[last]);
        }
    }
    // c1 starts as t does.
    assert(c1[0] == t[0]);
    assert(t[0] == delim()[0]) by {
        assert(t[0] == t.subrange(0, 3)[0]);
    }
    assert(spec_trim_start(c1) == c1);
    assert(c1.subrange(0, 3) =~= t.subrange(0, 3));
    assert(spec_starts_with(c1, delim()));
    // The field name is found where it was.
    assert(c1.subrange(fp, fp + pat.len()) =~= pat) by {
        assert forall|i: int| 0 <= i < pat.len() implies c1.subrange(fp, fp + pat.len())[i] == pat[i] by {
            assert(c1[fp + i] == t[fp + i]);
            assert(t[fp + i] == t.subrange(fp, fp + pat.len())[i]);
        }
    }
    assert forall|j: int| 0 <= j < fp implies !occurs_at(c1, pat, j) by {
        assert(!occurs_at(t, pat, j));
        assert(c1.subrange(j, j + pat.len()) =~= t.subrange(j, j + pat.len()));
    }
    lemma_find_from_at(c1, pat, 0, fp);
    // The line ends where the new line ends.
    let after1 = c1.subrange(fp, c1.len() as int);
    let rest = t.subrange(fp + le, t.len() as int);
    assert(after1 =~= line + rest);
    assert forall|j: int| 0 <= j < line.len() implies !occurs_at(after1, nl, j) by {
        assert(after1.subrange(j, j + 1)[0] == line[j]);
        if j < field.len() {
            assert(line[j] == field[j]);
            assert(field.contains(line[j]));
        } else if j < field.len() + 2 {
        } else {
            assert(line[j] == value[j - field.len() - 2]);
            assert(value.contains(line[j]));
        }
    }
    if spec_find(after, nl) is Some {
        assert(after.subrange(le, le + 1) == nl);
        assert(after1.subrange(line.len() as int, line.len() as int + 1) =~= after.subrange(le, le + 1));
        lemma_find_from_at(after1, nl, 0, line.len() as int);
    } else {
        assert(le == after.len());
        assert(after1 =~= line);
        lemma_find_from(after1, nl, 0);
        assert(spec_find(after1, nl) is None) by {
            if spec_find(after1, nl) is Some {
                let k = spec_find(after1, nl).unwrap();
                assert(occurs_at(after1, nl, k));
            }
        }
    }
    assert(c1.subrange(0, fp) + line + c1.subrange(fp + line.len(), c1.len() as int) =~= c1);
}

/// Adding a field that the front matter lacks, whose name holds no `:`,
/// and updating it again with the same value changes nothing more.
/// Where [`add_field`] inserts the new line: at the closing `---` of the
/// frontmatter block.
pub open spec fn field_insert_pos(content: Seq<char>) -> int {
    let t = spec_trim_start(content);
    3 + spec_find(t.subrange(3, t.len() as int), delim()).unwrap()
}

/// The first `field:` of the content with the field added is the added line.
pub open spec fn added_line_found(content: Seq<char>, field: Seq<char>, value: Seq<char>) -> bool {
    spec_find(spec_add_field(content, field, value).unwrap(), field + seq![':']) == Some(field_insert_pos(content))
}

proof fn lemma_update_absent_field_twice(content: Seq<char>, field: Seq<char>, value: Seq<char>)
    requires
        field.len() > 0,
        !field.contains('\n'),
        !value.contains('\n'),
        spec_update_field(content, field, value) is Some,
        spec_find(spec_trim_start(content), field + seq![':']) is None,
        added_line_found(content, field, value),
    ensures
        spec_update_field(spec_update_field(content, field, value).unwrap(), field, value)
            == spec_update_field(content, field, value),
{
    let t = spec_trim_start(content);
    let pat = field + seq![':'];
    let body = t.subrange(3, t.len() as int);
    let e = spec_find(body, delim()).unwrap();
    lemma_find_from(body, delim(), 0);
    let b = 3 + e;
    let line = spec_field_line(field, value);
    let c1 = t.subrange(0, b) + line + seq!['\n'] + t.subrange(b, t.len() as int);
    assert(spec_update_field(content, field, value) == Some(c1));
    assert(spec_starts_with(t, delim()));
    assert(t.subrange(0, 3) == delim());
    assert(c1.subrange(0, 3) =~= t.subrange(0, 3));
    assert(c1[0] == t.subrange(0, 3)[0]);
    assert(spec_trim_start(c1) == c1);
    assert(spec_starts_with(c1, delim()));
    assert(spec_find(c1, pat) == Some(b));
    // The added line ends at its line break.
    let nl = seq!['\n'];
    let after1 = c1.subrange(b, c1.len() as int);
    assert(after1 =~= line + nl + t.subrange(b, t.len() as int));
    assert forall|j: int| 0 <= j < line.len() implies !occurs_at(after1, nl, j) by {
        assert(after1.subrange(j, j + 1)[0] == line[j]);
        if j < field.len() {
            assert(line[j] == field[j]);
            assert(field.contains(line[j]));
        } else if j < field.len() + 2 {
        } else {
            assert(line[j] == value[j - field.len() - 2]);
            assert(value.contains(line[j]));
        }
    }
    assert(after1.subrange(line.len() as int, line.len() as int + 1) =~= nl);
    lemma_find_from_at(after1, nl, 0, line.len() as int);
    assert(c1.subrange(0, b) + line + c1.subrange(b + line.len(), c1.len() as int) =~= c1);
}

/// Updating a field to a value without line breaks, a second time with the
/// same value, changes nothing more, when the field is present or the line
/// that the first update adds is where the second one finds the field.
pub proof fn law_update_field_twice(content: Seq<char>, field: Seq<char>, value: Seq<char>)
    requires
        field.len() > 0,
        !field.contains('\n'),
        !value.contains('\n'),
        spec_update_field(content, field, value) is Some,
        spec_find(spec_trim_start(content), field + seq![':']) is Some || added_line_found(content, field, value),
    ensures
        spec_update_field(spec_update_field(content, field, value).unwrap(), field, value)
            == spec_update_field(content, field, value),
{
    if spec_find(spec_trim_start(content), field + seq![':']) is Some {
        lemma_update_present_field_twice(content, field, value);
    } else {
        lemma_update_absent_field_twice(content, field, value);
    }
}

/// Inserts `field: value` as the last line of the frontmatter block.
pub fn add_field(content: &str, field: &str, value: &str) -> (r: Result<String, OcError>)
    ensures
        match spec_add_field(content@, field@, value@) {
            Some(s) => r matches Ok(out) && out@ == s,
            None => r matches Err(OcError::MissingFrontmatter),
        },
{
    let all = chars_of(content);
    let t = trim_start(&all);
    let d = delim_chars();
    if !starts_with(&t, &d) {
        return Err(OcError::MissingFrontmatter);
    }
    let after = slice_to_vec(&t, 3, t.len());
    match find(&after, &d) {
        Some(e) => {
            proof {
                lemma_find_from(after@, delim(), 0);
            }
            let before = slice_to_vec(&t, 0, 3 + e);
            let rest = slice_to_vec(&t, 3 + e, t.len());
            let mut out = string_of(&before);
            push_str(&mut out, field);
            push_str(&mut out, ": ");
            push_str(&mut out, value);
            push_str(&mut out, "\n");
            let rest_s = string_of(&rest);
            push_str(&mut out, rest_s.as_str());
            proof {
                reveal_strlit(": ");
                reveal_strlit("\n");
                assert(out@ =~= t@.subrange(0, 3 + e) + spec_field_line(field@, value@)
                    + seq!['\n'] + t@.subrange(3 + e as int, t@.len() as int));
            }
            Ok(out)
        },
        None => Err(OcError::MissingFrontmatter),
    }
}

/// Replaces the line that holds the first `field:` with `field: value`, or
/// adds the field when it does not occur.
pub fn update_field(content: &str, field: &str, value: &str) -> (r: Result<String, OcError>)
    ensures
        match spec_update_field(content@, field@, value@) {
            Some(s) => r matches Ok(out) && out@ == s,
            None => r matches Err(OcError::MissingFrontmatter),
        },
{
    let all = chars_of(content);
    let t = trim_start(&all);
    let d = delim_chars();
    if !starts_with(&t, &d) {
        return Err(OcError::MissingFrontmatter);
    }
    let mut pattern = chars_of(field);
    pattern.push(':');
    assert(pattern@ =~= field@ + seq![':']);
    match find(&t, &pattern) {
        Some(fp) => {
            proof {
                lemma_find_from(t@, pattern@, 0);
            }
            let after = slice_to_vec(&t, fp, t.len());
            let nl = ['\n'];
            assert(nl@ =~= seq!['\n']);
            let line_end = match find(&after, &nl) {
                Some(k) => {
                    proof {
                        lemma_find_from(after@, seq!['\n'], 0);
                    }
                    k
                },
                None => after.len(),
            };
            let before = slice_to_vec(&t, 0, fp);
            let rest = slice_to_vec(&t, fp + line_end, t.len());
            let mut out = string_of(&before);
            push_str(&mut out, field);
            push_str(&mut out, ": ");
            push_str(&mut out, value);
            let rest_s = string_of(&rest);
            push_str(&mut out, rest_s.as_str());
            proof {
                reveal_strlit(": ");
                assert(out@ =~= t@.subrange(0, fp as int) + spec_field_line(field@, value@)
                    + t@.subrange(fp + line_end, t@.len() as int));
            }
            Ok(out)
        },
        None => add_field(content, field, value),
    }
}

/// Code-fence marker.
pub open spec fn fence() -> Seq<char> {
    seq!['`', '`', '`']
}

/// Words of the given lines outside code fences: a trimmed line that starts
/// with a fence toggles the fence and is not counted; Markdown marks count
/// as separators.
pub open spec fn spec_count_words_lines(ls: Seq<Seq<char>>, in_code: bool) -> nat
    decreases ls.len(),
{
    if ls.len() == 0 {
        0
    } else {
        let t = spec_trim(ls[0]);
        if spec_starts_with(t, fence()) {
            spec_count_words_lines(ls.drop_first(), !in_code)
        } else if in_code {
            spec_count_words_lines(ls.drop_first(), in_code)
        } else {
            spec_word_count(t, true) + spec_count_words_lines(ls.drop_first(), in_code)
        }
    }
}

/// Words of a document body outside code fences.
pub open spec fn spec_count_words(body: Seq<char>) -> nat {
    spec_count_words_lines(spec_lines(body), false)
}

proof fn lemma_count_words_bound(ls: Seq<Seq<char>>, in_code: bool)
    ensures
        spec_count_words_lines(ls, in_code) <= spec_total_len(ls),
    decreases ls.len(),
{
    if ls.len() > 0 {
        lemma_count_words_bound(ls.drop_first(), !in_code);
        lemma_count_words_bound(ls.drop_first(), in_code);
        lemma_word_count_le_len(spec_trim(ls[0]), true);
        lemma_trim_len(ls[0]);
    }
}

/// Counts the words of a body, skipping fenced code blocks.
pub fn count_words(body: &str) -> (n: usize)
    ensures
        n == spec_count_words(body@),
{
    let chars = chars_of(body);
    let ls = lines(&chars);
    assert(body@.len() == chars.len());
    let ghost lv = views(ls@);
    proof {
        lemma_lines_total_len(body@);
        lemma_count_words_bound(lv, false);
    }
    let f = ['`', '`', '`'];
    assert(f@ =~= fence());
    let mut in_code = false;
    let mut count: usize = 0;
    let mut i: usize = 0;
    assert(lv.subrange(0, lv.len() as int) =~= lv);
    while i < ls.len()
        invariant
            lv == views(ls@),
            lv == spec_lines(body@),
            i <= lv.len(),
            f@ == fence(),
            count + spec_count_words_lines(lv.subrange(i as int, lv.len() as int), in_code)
                == spec_count_words_lines(lv, false),
            spec_count_words_lines(lv, false) <= body@.len(),
            body@.len() <= usize::MAX,
        decreases lv.len() - i,
    {
        let ghost rest = lv.subrange(i as int, lv.len() as int);
        assert(rest.drop_first() =~= lv.subrange(i + 1, lv.len() as int));
        assert(rest[0] == ls@[i as int]@);
        let t = trim(&ls[i]);
        if starts_with(&t, &f) {
            in_code = !in_code;
        } else if !in_code {
            let w = word_count(&t, true);
            count = count + w;
        }
        i = i + 1;
    }
    assert(lv.subrange(lv.len() as int, lv.len() as int) =~= Seq::<Seq<char>>::empty());
    count
}

/// The body of a document: the text after its frontmatter block, without
/// leading whitespace (see [`spec_frame`]); the YAML of the block is not
/// read here.
pub fn extract_body(content: &str) -> (r: Result<String, OcError>)
    ensures
        match spec_frame(content@) {
            Some((_, b)) => r matches Ok(s) && s@ == b,
            None => r matches Err(OcError::MissingFrontmatter),
        },
{
    match split_frontmatter(content) {
        Ok(p) => Ok(p.body),
        Err(e) => Err(e),
    }
}

} // verus!
