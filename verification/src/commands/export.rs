//! Export of the documentation to other formats.

use vstd::prelude::*;
use crate::patterns::{group, spec_group, RE_MODULE, RE_TITLE};
use crate::text::{
    chars_of, concat3, owned, replace_str, spec_contains, spec_replace, spec_starts_with,
    spec_to_lowercase, spec_trim, spec_utf8_len, spec_word_count, starts_with, str_eq,
    string_of, strs, to_lowercase, trim, utf8_len, word_count, find, contains_str,
};

verus! {

/// An export format.
#[derive(Debug, Clone, Copy, PartialEq, Eq, Structural)]
pub enum ExportFormat {
    Markdown,
    Html,
    Pdf,
    Docx,
    Json,
    Latex,
}

/// The format named by a (lower-cased) text.
pub open spec fn format_named(s: Seq<char>) -> Option<ExportFormat> {
    if s == "md"@ || s == "markdown"@ { Some(ExportFormat::Markdown) }
    else if s == "html"@ { Some(ExportFormat::Html) }
    else if s == "pdf"@ { Some(ExportFormat::Pdf) }
    else if s == "docx"@ || s == "word"@ { Some(ExportFormat::Docx) }
    else if s == "json"@ { Some(ExportFormat::Json) }
    else if s == "latex"@ || s == "tex"@ { Some(ExportFormat::Latex) }
    else { None }
}

/// The file extension of a format.
pub open spec fn format_extension(f: ExportFormat) -> Seq<char> {
    match f {
        ExportFormat::Markdown => "md"@,
        ExportFormat::Html => "html"@,
        ExportFormat::Pdf => "pdf"@,
        ExportFormat::Docx => "docx"@,
        ExportFormat::Json => "json"@,
        ExportFormat::Latex => "tex"@,
    }
}

impl ExportFormat {
    /// The format named by `s`, case-insensitively.
    pub fn from_str(s: &str) -> (r: Option<ExportFormat>)
        ensures
            r == format_named(spec_to_lowercase(s@)),
            crate::text::all_ascii(s@) ==> r == format_named(s@.map_values(|c: char| crate::text::ascii_lower(c))),
    {
        let l = to_lowercase(s);
        let t = l.as_str();
        if str_eq(t, "md") || str_eq(t, "markdown") { Some(ExportFormat::Markdown) }
        else if str_eq(t, "html") { Some(ExportFormat::Html) }
        else if str_eq(t, "pdf") { Some(ExportFormat::Pdf) }
        else if str_eq(t, "docx") || str_eq(t, "word") { Some(ExportFormat::Docx) }
        else if str_eq(t, "json") { Some(ExportFormat::Json) }
        else if str_eq(t, "latex") || str_eq(t, "tex") { Some(ExportFormat::Latex) }
        else { None }
    }

    pub fn extension(&self) -> (e: &'static str)
        ensures
            e@ == format_extension(*self),
    {
        match self {
            ExportFormat::Markdown => "md",
            ExportFormat::Html => "html",
            ExportFormat::Pdf => "pdf",
            ExportFormat::Docx => "docx",
            ExportFormat::Json => "json",
            ExportFormat::Latex => "tex",
        }
    }
}

/// Outcome of an export.
#[derive(Debug, Clone)]
pub struct ExportResult {
    pub output_path: String,
    pub format: String,
    pub files_exported: usize,
    pub total_bytes: usize,
}

impl ExportResult {
    pub fn new(path: &str, format: &str) -> (r: ExportResult)
        ensures
            r.output_path@ == path@,
            r.format@ == format@,
            r.files_exported == 0,
            r.total_bytes == 0,
    {
        ExportResult { output_path: owned(path), format: owned(format), files_exported: 0, total_bytes: 0 }
    }
}

/// Options of the export command.
#[derive(Debug, Clone)]
pub struct ExportCommand {
    pub format: String,
    pub output: Option<String>,
    pub path: Option<String>,
    pub toc: bool,
    pub include_metadata: bool,
    pub prefix_rename: bool,
    pub modules: Option<Vec<String>>,
    pub zip: bool,
    pub template: Option<String>,
    pub single_file: bool,
    pub max_tokens: Option<usize>,
    pub compact: bool,
    pub tree: bool,
    pub stats: bool,
}

/// The export index.
#[derive(Debug, Clone)]
pub struct ExportIndex {
    pub exported_at: String,
    pub source_dir: String,
    pub total_files: usize,
    pub modules: Vec<String>,
    pub files: Vec<ExportFileEntry>,
}

/// An entry of the index.
#[derive(Debug, Clone)]
pub struct ExportFileEntry {
    pub original_name: String,
    pub exported_name: String,
    pub module: Option<String>,
    pub word_count: usize,
}

/// The module of a document: its trimmed `module` field.
pub open spec fn doc_module(content: Seq<char>) -> Option<Seq<char>> {
    match spec_group(RE_MODULE@, content, 1) {
        Some(m) => Some(spec_trim(m)),
        None => None,
    }
}

/// Whether a document is exported: with a module filter, its module must
/// contain one of the filters or its stem start with one.
pub open spec fn export_selected(cmd: ExportCommand, stem: Seq<char>, content: Seq<char>) -> bool {
    match cmd.modules {
        Some(fs) => (match doc_module(content) {
            Some(m) => exists|k: int| 0 <= k < fs@.len() && spec_contains(m, #[trigger] fs@[k]@),
            None => false,
        }) || exists|k: int| 0 <= k < fs@.len() && spec_starts_with(stem, #[trigger] fs@[k]@),
        None => true,
    }
}

/// The exported file name: with renaming asked and a module, the module
/// (spaces to `_`, dots to `-`), an underscore, then the file name.
pub open spec fn exported_name(cmd: ExportCommand, name: Seq<char>, content: Seq<char>) -> Seq<char> {
    if cmd.prefix_rename {
        match doc_module(content) {
            Some(m) => spec_replace(spec_replace(m, " "@, "_"@), "."@, "-"@) + "_"@ + name,
            None => name,
        }
    } else {
        name
    }
}

/// A document to export as (file name, file stem, content).
pub open spec fn export_files_view(fs: Seq<(String, String, String)>) -> Seq<(Seq<char>, Seq<char>, Seq<char>)> {
    fs.map_values(|f: (String, String, String)| (f.0@, f.1@, f.2@))
}

/// An index entry as (original name, exported name, module, words).
pub type EntryView = (Seq<char>, Seq<char>, Option<Seq<char>>, nat);

/// The index entries of the exported documents, in order.
pub open spec fn export_entries(cmd: ExportCommand, fs: Seq<(Seq<char>, Seq<char>, Seq<char>)>) -> Seq<EntryView>
    decreases fs.len(),
{
    if fs.len() == 0 {
        Seq::empty()
    } else {
        let p = export_entries(cmd, fs.drop_last());
        let (name, stem, c) = fs.last();
        if export_selected(cmd, stem, c) {
            p.push((name, exported_name(cmd, name, c), doc_module(c), spec_word_count(c, false)))
        } else {
            p
        }
    }
}

/// Total UTF-8 size of the exported documents.
pub open spec fn export_bytes(cmd: ExportCommand, fs: Seq<(Seq<char>, Seq<char>, Seq<char>)>) -> nat
    decreases fs.len(),
{
    if fs.len() == 0 {
        0
    } else {
        let (_n, stem, c) = fs.last();
        export_bytes(cmd, fs.drop_last()) + (if export_selected(cmd, stem, c) { spec_utf8_len(c) } else { 0 })
    }
}

/// The texts of index entries.
pub open spec fn entries_view(v: Seq<ExportFileEntry>) -> Seq<EntryView> {
    v.map_values(|e: ExportFileEntry| (e.original_name@, e.exported_name@,
        match e.module { Some(m) => Some(m@), None => None }, e.word_count as nat))
}

/// Whether some filter occurs in `m`.
fn any_contained(fs: &Vec<String>, m: &str) -> (r: bool)
    ensures
        r == exists|k: int| 0 <= k < fs@.len() && spec_contains(m@, #[trigger] fs@[k]@),
{
    let mv = chars_of(m);
    let mut k: usize = 0;
    while k < fs.len()
        invariant
            k <= fs@.len(),
            mv@ == m@,
            forall|j: int| 0 <= j < k ==> !spec_contains(m@, #[trigger] fs@[j]@),
        decreases fs@.len() - k,
    {
        if find(&mv, &chars_of(fs[k].as_str())).is_some() {
            return true;
        }
        k = k + 1;
    }
    false
}

/// Whether some filter starts `s`.
fn any_prefix(fs: &Vec<String>, s: &str) -> (r: bool)
    ensures
        r == exists|k: int| 0 <= k < fs@.len() && spec_starts_with(s@, #[trigger] fs@[k]@),
{
    let sv = chars_of(s);
    let mut k: usize = 0;
    while k < fs.len()
        invariant
            k <= fs@.len(),
            sv@ == s@,
            forall|j: int| 0 <= j < k ==> !spec_starts_with(s@, #[trigger] fs@[j]@),
        decreases fs@.len() - k,
    {
        if starts_with(&sv, &chars_of(fs[k].as_str())) {
            return true;
        }
        k = k + 1;
    }
    false
}

/// The module of a document.
fn module_of(content: &str) -> (r: Option<String>)
    ensures
        match r {
            Some(m) => doc_module(content@) == Some(m@),
            None => doc_module(content@) is None,
        },
{
    match group(RE_MODULE, content, 1) {
        Some(m) => Some(string_of(&trim(&chars_of(m.as_str())))),
        None => None,
    }
}

impl ExportCommand {
    /// The format asked for, Markdown when it is not known.
    pub fn format_enum(&self) -> (f: ExportFormat)
        ensures
            f == match format_named(spec_to_lowercase(self.format@)) {
                Some(x) => x,
                None => ExportFormat::Markdown,
            },
    {
        match ExportFormat::from_str(self.format.as_str()) {
            Some(f) => f,
            None => ExportFormat::Markdown,
        }
    }

    /// The output directory: the one given, or `export`.
    pub fn output_dir(&self) -> (d: String)
        ensures
            d@ == match self.output { Some(o) => o@, None => "export"@ },
    {
        match &self.output {
            Some(o) => o.clone(),
            None => owned("export"),
        }
    }

    /// Whether a document is exported.
    pub fn selects(&self, stem: &str, content: &str) -> (r: bool)
        ensures
            r == export_selected(*self, stem@, content@),
    {
        match &self.modules {
            Some(fs) => {
                let by_module = match module_of(content) {
                    Some(m) => any_contained(fs, m.as_str()),
                    None => false,
                };
                by_module || any_prefix(fs, stem)
            },
            None => true,
        }
    }

    /// The name a document is exported under.
    pub fn exported_name(&self, name: &str, content: &str) -> (r: String)
        ensures
            r@ == exported_name(*self, name@, content@),
    {
        if self.prefix_rename {
            match module_of(content) {
                Some(m) => {
                    proof {
                        reveal_strlit(" ");
                        reveal_strlit(".");
                    }
                    let p1 = replace_str(m.as_str(), " ", "_");
                    let p2 = replace_str(p1.as_str(), ".", "-");
                    concat3(p2.as_str(), "_", name)
                },
                None => owned(name),
            }
        } else {
            owned(name)
        }
    }

    /// What exporting the documents, given as (file name, file stem,
    /// content), writes: the result's counts and the index entries.
    pub fn plan(&self, files: &Vec<(String, String, String)>) -> (r: (ExportResult, Vec<ExportFileEntry>))
        requires
            export_bytes(*self, export_files_view(files@)) <= usize::MAX,
        ensures
            r.0.output_path@ == match self.output { Some(o) => o@, None => "export"@ },
            r.0.format@ == self.format@,
            entries_view(r.1@) == export_entries(*self, export_files_view(files@)),
            r.0.files_exported == r.1@.len(),
            r.0.total_bytes == export_bytes(*self, export_files_view(files@)),
    {
        let ghost fv = export_files_view(files@);
        let mut result = ExportResult::new(self.output_dir().as_str(), self.format.as_str());
        let mut entries: Vec<ExportFileEntry> = Vec::new();
        let mut i: usize = 0;
        while i < files.len()
            invariant
                i <= files@.len(),
                fv == export_files_view(files@),
                export_bytes(*self, fv) <= usize::MAX,
                entries_view(entries@) == export_entries(*self, fv.subrange(0, i as int)),
                result.files_exported == entries@.len(),
                result.total_bytes == export_bytes(*self, fv.subrange(0, i as int)),
                result.output_path@ == match self.output { Some(o) => o@, None => "export"@ },
                result.format@ == self.format@,
            decreases files@.len() - i,
        {
            let ghost sub = fv.subrange(0, i + 1);
            proof {
                assert(sub.drop_last() =~= fv.subrange(0, i as int));
                lemma_bytes_prefix(*self, fv, i as int);
                lemma_entries_len(*self, fv.subrange(0, i as int));
            }
            let (name, stem, content) = (&files[i].0, &files[i].1, &files[i].2);
            if self.selects(stem.as_str(), content.as_str()) {
                let exported = self.exported_name(name.as_str(), content.as_str());
                let wc = word_count(&chars_of(content.as_str()), false);
                let bytes = utf8_len(&chars_of(content.as_str()));
                let ghost e0 = entries_view(entries@);
                entries.push(ExportFileEntry {
                    original_name: name.clone(),
                    exported_name: exported,
                    module: module_of(content.as_str()),
                    word_count: wc,
                });
                assert(entries_view(entries@) =~= e0.push(entries_view(entries@).last()));
                result.files_exported = result.files_exported + 1;
                result.total_bytes = result.total_bytes + bytes;
            }
            i = i + 1;
        }
        assert(fv.subrange(0, files@.len() as int) =~= fv);
        (result, entries)
    }
}

proof fn lemma_bytes_prefix(cmd: ExportCommand, fs: Seq<(Seq<char>, Seq<char>, Seq<char>)>, i: int)
    requires
        0 <= i < fs.len(),
    ensures
        export_bytes(cmd, fs.subrange(0, i + 1)) <= export_bytes(cmd, fs),
    decreases fs.len(),
{
    if i + 1 < fs.len() {
        lemma_bytes_prefix(cmd, fs.drop_last(), i);
        assert(fs.drop_last().subrange(0, i + 1) =~= fs.subrange(0, i + 1));
    } else {
        assert(fs.subrange(0, i + 1) =~= fs);
    }
}

proof fn lemma_entries_len(cmd: ExportCommand, fs: Seq<(Seq<char>, Seq<char>, Seq<char>)>)
    ensures
        export_entries(cmd, fs).len() <= fs.len(),
    decreases fs.len(),
{
    if fs.len() > 0 {
        lemma_entries_len(cmd, fs.drop_last());
    }
}

/// The part of a document in the single-file export: a heading with its
/// name, its text without the front matter (everything up to the first
/// `\n---\n` when the text starts with `---`), then a separator.
pub open spec fn spec_single_file_section(name: Seq<char>, content: Seq<char>) -> Seq<char> {
    let body = match crate::text::spec_find(content, "\n---\n"@) {
        Some(e) => if crate::text::spec_starts_with(content, "---"@) { content.subrange(e + 5, content.len() as int) } else { content },
        None => content,
    };
    "## "@ + name + "\n\n"@ + body + "\n\n---\n\n"@
}

impl ExportCommand {
    /// The part of a document in the single-file export.
    pub fn single_file_section(name: &str, content: &str) -> (r: String)
        ensures
            r@ == spec_single_file_section(name@, content@),
    {
        let c = crate::text::chars_of(content);
        let marker = crate::text::chars_of("\n---\n");
        proof {
            reveal_strlit("\n---\n");
        }
        let mut s = crate::text::owned("## ");
        crate::text::push_str(&mut s, name);
        crate::text::push_str(&mut s, "\n\n");
        match crate::text::find(&c, &marker) {
            Some(e) => {
                proof {
                    crate::text::lemma_find_from(c@, marker@, 0);
                    assert(crate::text::occurs_at(c@, marker@, e as int));
                }
                let n = c.len();
                assert(e + 5 <= n);
                if crate::text::starts_with(&c, &crate::text::chars_of("---")) {
                    crate::text::push_str(&mut s, crate::text::string_of(&crate::text::slice_to_vec(&c, e + 5, n)).as_str());
                } else {
                    crate::text::push_str(&mut s, content);
                }
            },
            None => {
                crate::text::push_str(&mut s, content);
            },
        }
        crate::text::push_str(&mut s, "\n\n---\n\n");
        s
    }
}

/// The title of a document in the export metadata: its trimmed `title`
/// field, or its stem when it has none.
pub open spec fn spec_doc_title(stem: Seq<char>, content: Seq<char>) -> Seq<char> {
    match spec_group(RE_TITLE@, content, 1) {
        Some(t) => spec_trim(t),
        None => stem,
    }
}

/// The modules of the index entries, each once, in order of first appearance.
pub open spec fn index_modules(es: Seq<EntryView>) -> Seq<Seq<char>>
    decreases es.len(),
{
    if es.len() == 0 {
        Seq::empty()
    } else {
        let prev = index_modules(es.drop_last());
        match es.last().2 {
            Some(m) => if prev.contains(m) { prev } else { prev.push(m) },
            None => prev,
        }
    }
}

impl ExportCommand {
    /// The title of a document (see [`spec_doc_title`]).
    pub fn doc_title(stem: &str, content: &str) -> (r: String)
        ensures
            r@ == spec_doc_title(stem@, content@),
    {
        match group(RE_TITLE, content, 1) {
            Some(t) => string_of(&trim(&chars_of(t.as_str()))),
            None => owned(stem),
        }
    }

    /// The modules the index lists (see [`index_modules`]).
    pub fn modules_of(entries: &Vec<ExportFileEntry>) -> (r: Vec<String>)
        ensures
            strs(r@) == index_modules(entries_view(entries@)),
    {
        let ghost ev = entries_view(entries@);
        let mut out: Vec<String> = Vec::new();
        let mut i: usize = 0;
        assert(strs(out@) =~= index_modules(ev.subrange(0, 0)));
        while i < entries.len()
            invariant
                i <= entries@.len(),
                ev == entries_view(entries@),
                strs(out@) == index_modules(ev.subrange(0, i as int)),
            decreases entries@.len() - i,
        {
            assert(ev.subrange(0, i + 1).drop_last() =~= ev.subrange(0, i as int));
            match &entries[i].module {
                Some(m) => {
                    if !contains_str(&out, m.as_str()) {
                        let ghost before = strs(out@);
                        out.push(m.clone());
                        assert(strs(out@) =~= before.push(m@));
                    }
                },
                None => {},
            }
            i = i + 1;
        }
        assert(ev.subrange(0, entries@.len() as int) =~= ev);
        out
    }
}

} // verus!
