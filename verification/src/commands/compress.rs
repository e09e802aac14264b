//! Compilation of the whole documentation into one file.

use vstd::prelude::*;
use crate::patterns::{group, is_match, spec_group, spec_is_match, RE_DRAFT, RE_MODULE, RE_TITLE};
use crate::text::{
    chars_of, concat2, decimal, owned, push_str, replace_str, slice_to_vec, spec_decimal,
    spec_find, spec_replace, spec_starts_with, spec_to_lowercase, spec_trim, spec_utf8_len,
    spec_word_count, starts_with, str_eq, string_of, strs, to_lowercase, trim, utf8_len,
    word_count, find,
};

verus! {

/// Outcome of a compilation.
#[derive(Debug, Clone)]
pub struct CompressResult {
    pub output_path: String,
    pub modules_included: usize,
    pub documents_included: usize,
    pub total_words: usize,
    pub output_bytes: usize,
}

/// `"<modules> módulos, <docs> docs, <words> palabras → <bytes> bytes"`.
pub open spec fn summary_text(r: CompressResult) -> Seq<char> {
    spec_decimal(r.modules_included as nat) + " módulos, "@ + spec_decimal(r.documents_included as nat)
        + " docs, "@ + spec_decimal(r.total_words as nat) + " palabras → "@
        + spec_decimal(r.output_bytes as nat) + " bytes"@
}

impl CompressResult {
    pub fn new(path: &str) -> (r: CompressResult)
        ensures
            r.output_path@ == path@,
            r.modules_included == 0,
            r.documents_included == 0,
            r.total_words == 0,
            r.output_bytes == 0,
    {
        CompressResult {
            output_path: owned(path),
            modules_included: 0,
            documents_included: 0,
            total_words: 0,
            output_bytes: 0,
        }
    }

    /// One-line summary of the counts.
    pub fn summary(&self) -> (s: String)
        ensures
            s@ == summary_text(*self),
    {
        let mut s = decimal(self.modules_included);
        push_str(&mut s, " módulos, ");
        push_str(&mut s, decimal(self.documents_included).as_str());
        push_str(&mut s, " docs, ");
        push_str(&mut s, decimal(self.total_words).as_str());
        push_str(&mut s, " palabras → ");
        push_str(&mut s, decimal(self.output_bytes).as_str());
        push_str(&mut s, " bytes");
        s
    }
}

/// A compiled document, for the JSON output.
#[derive(Debug, Clone)]
pub struct CompressedDoc {
    pub id: String,
    pub title: String,
    pub module: Option<String>,
    pub word_count: usize,
    pub content: String,
}

/// The collection written as JSON.
#[derive(Debug, Clone)]
pub struct CompressedCollection {
    pub generated: String,
    pub total_documents: usize,
    pub total_words: usize,
    pub modules: Vec<String>,
    pub documents: Vec<CompressedDoc>,
}

/// Options of the compress command.
#[derive(Debug, Clone)]
pub struct CompressCommand {
    pub path: Option<String>,
    pub output: Option<String>,
    pub format: String,
    pub modules: Option<Vec<String>>,
    pub no_drafts: bool,
    pub split_by_module: bool,
}

/// Heading of the table of contents.
pub const TOC_HEADING: &'static str = "# 📑 Tabla de Contenidos\n\n";

/// Whether a document (by file stem and content) is compiled: drafts are
/// skipped when asked, and only the listed module prefixes are kept.
pub open spec fn doc_selected(cmd: CompressCommand, id: Seq<char>, content: Seq<char>) -> bool {
    &&& !(cmd.no_drafts && spec_is_match(RE_DRAFT@, content))
    &&& match cmd.modules {
        Some(ms) => exists|k: int| 0 <= k < ms@.len() && spec_starts_with(id, #[trigger] ms@[k]@),
        None => true,
    }
}

/// The title of a document: its trimmed `title` field, or the file stem.
pub open spec fn doc_title(id: Seq<char>, content: Seq<char>) -> Seq<char> {
    match spec_group(RE_TITLE@, content, 1) {
        Some(t) => spec_trim(t),
        None => id,
    }
}

/// The anchor of a document: its stem with `.` and spaces turned into `-`,
/// lower-cased.
pub open spec fn doc_anchor(id: Seq<char>) -> Seq<char> {
    spec_to_lowercase(spec_replace(spec_replace(id, "."@, "-"@), " "@, "-"@))
}

/// The body of a document: after a front matter opened by `---`, the text
/// after the next `---`, trimmed; the whole content otherwise.
pub open spec fn doc_body(content: Seq<char>) -> Seq<char> {
    if spec_starts_with(content, "---"@) {
        match spec_find(content.skip(3), "---"@) {
            Some(e) => spec_trim(content.skip(e + 6)),
            None => content,
        }
    } else {
        content
    }
}

/// The table-of-contents line of a document.
pub open spec fn toc_line(id: Seq<char>, content: Seq<char>) -> Seq<char> {
    "- ["@ + doc_title(id, content) + "](#"@ + doc_anchor(id) + ")\n"@
}

/// The compiled section of a document.
pub open spec fn doc_section(id: Seq<char>, content: Seq<char>) -> Seq<char> {
    "\n---\n\n## "@ + doc_title(id, content) + " {"@ + id + "}\n\n"@ + doc_body(content) + "\n\n"@
}

/// The texts of the documents given as (file stem, content) pairs.
pub open spec fn docs_view(docs: Seq<(String, String)>) -> Seq<(Seq<char>, Seq<char>)> {
    docs.map_values(|d: (String, String)| (d.0@, d.1@))
}

/// What compiling the documents gives: table of contents, sections,
/// number of documents, number of words, modules (first appearance order,
/// without repeats).
pub open spec fn spec_compile(cmd: CompressCommand, docs: Seq<(Seq<char>, Seq<char>)>)
    -> (Seq<char>, Seq<char>, nat, nat, Seq<Seq<char>>)
    decreases docs.len(),
{
    if docs.len() == 0 {
        (TOC_HEADING@, Seq::empty(), 0, 0, Seq::empty())
    } else {
        let p = spec_compile(cmd, docs.drop_last());
        let (id, c) = docs.last();
        if doc_selected(cmd, id, c) {
            let mods = match spec_group(RE_MODULE@, c, 1) {
                Some(m) => if p.4.contains(m) { p.4 } else { p.4.push(m) },
                None => p.4,
            };
            (p.0 + toc_line(id, c), p.1 + doc_section(id, c), p.2 + 1, p.3 + spec_word_count(c, false), mods)
        } else {
            p
        }
    }
}

/// Sum of the word counts of all the documents.
pub open spec fn all_words(docs: Seq<(Seq<char>, Seq<char>)>) -> nat
    decreases docs.len(),
{
    if docs.len() == 0 { 0 } else { all_words(docs.drop_last()) + spec_word_count(docs.last().1, false) }
}

proof fn lemma_compile_bounds(cmd: CompressCommand, docs: Seq<(Seq<char>, Seq<char>)>)
    ensures
        spec_compile(cmd, docs).2 <= docs.len(),
        spec_compile(cmd, docs).3 <= all_words(docs),
        spec_compile(cmd, docs).4.len() <= spec_compile(cmd, docs).2,
    decreases docs.len(),
{
    if docs.len() > 0 {
        lemma_compile_bounds(cmd, docs.drop_last());
    }
}

/// The compiled document: front matter with the generation time, the table
/// of contents, then the sections.
pub open spec fn final_content(generated: Seq<char>, toc: Seq<char>, sections: Seq<char>) -> Seq<char> {
    toc + "\n\n"@ + "---\ntitle: Documentación Compilada\ngenerated: "@ + generated + "\n---\n\n"@ + sections
}

/// Whether some module prefix starts the stem.
fn module_listed(ms: &Vec<String>, id: &str) -> (r: bool)
    ensures
        r == exists|k: int| 0 <= k < ms@.len() && spec_starts_with(id@, #[trigger] ms@[k]@),
{
    let iv = chars_of(id);
    let mut k: usize = 0;
    while k < ms.len()
        invariant
            k <= ms@.len(),
            iv@ == id@,
            forall|j: int| 0 <= j < k ==> !spec_starts_with(id@, #[trigger] ms@[j]@),
        decreases ms@.len() - k,
    {
        let mv = chars_of(ms[k].as_str());
        if starts_with(&iv, &mv) {
            return true;
        }
        k = k + 1;
    }
    false
}

/// Whether `v` holds `t`.
fn holds(v: &Vec<String>, t: &String) -> (r: bool)
    ensures
        r == strs(v@).contains(t@),
{
    crate::text::contains_str(v, t.as_str())
}

impl CompressCommand {
    /// The output file: the one given, or `compiled.<format>`.
    pub fn output_path(&self) -> (p: String)
        ensures
            p@ == match self.output {
                Some(o) => o@,
                None => "compiled."@ + self.format@,
            },
    {
        match &self.output {
            Some(o) => o.clone(),
            None => concat2("compiled.", self.format.as_str()),
        }
    }

    /// Whether a document is compiled.
    pub fn selects(&self, id: &str, content: &str) -> (r: bool)
        ensures
            r == doc_selected(*self, id@, content@),
    {
        if self.no_drafts && is_match(RE_DRAFT, content) {
            return false;
        }
        match &self.modules {
            Some(ms) => module_listed(ms, id),
            None => true,
        }
    }

    /// Compiles the documents, given as (file stem, content) pairs in the
    /// order they are written; `generated` is the time written in the
    /// front matter.
    pub fn compile(&self, docs: &Vec<(String, String)>, generated: &str) -> (r: (CompressResult, String, String, String, Vec<String>))
        requires
            all_words(docs_view(docs@)) <= usize::MAX,
        ensures
            ({
                let c = spec_compile(*self, docs_view(docs@));
                let out = final_content(generated@, c.0, c.1);
                &&& r.1@ == out
                &&& r.0.documents_included == c.2
                &&& r.0.total_words == c.3
                &&& r.0.modules_included == c.4.len()
                &&& r.0.output_bytes == (if spec_utf8_len(out) <= usize::MAX { spec_utf8_len(out) } else { usize::MAX as nat })
                &&& r.0.output_path@ == match self.output {
                    Some(o) => o@,
                    None => "compiled."@ + self.format@,
                }
                &&& r.2@ == c.0
                &&& r.3@ == "---\ntitle: Documentación Compilada\ngenerated: "@ + generated@ + "\n---\n\n"@ + c.1
                &&& strs(r.4@) == c.4
            }),
    {
        let ghost dv = docs_view(docs@);
        let mut toc = owned(TOC_HEADING);
        let mut body = String::new();
        let mut documents: usize = 0;
        let mut words: usize = 0;
        let mut modules: Vec<String> = Vec::new();
        let mut i: usize = 0;
        while i < docs.len()
            invariant
                i <= docs@.len(),
                dv == docs_view(docs@),
                all_words(dv) <= usize::MAX,
                ({
                    let c = spec_compile(*self, dv.subrange(0, i as int));
                    &&& toc@ == c.0
                    &&& body@ == c.1
                    &&& documents == c.2
                    &&& words == c.3
                    &&& strs(modules@) == c.4
                }),
            decreases docs@.len() - i,
        {
            let ghost sub = dv.subrange(0, i + 1);
            proof {
                assert(sub.drop_last() =~= dv.subrange(0, i as int));
                assert(sub.last() == dv[i as int]);
                lemma_compile_bounds(*self, dv.subrange(0, i as int));
                lemma_all_words_prefix(dv, i as int);
            }
            let id = &docs[i].0;
            let content = &docs[i].1;
            if self.selects(id.as_str(), content.as_str()) {
                let title = match group(RE_TITLE, content.as_str(), 1) {
                    Some(t) => string_of(&trim(&chars_of(t.as_str()))),
                    None => id.clone(),
                };
                proof {
                    reveal_strlit(".");
                    reveal_strlit(" ");
                }
                let a1 = replace_str(id.as_str(), ".", "-");
                let a2 = replace_str(a1.as_str(), " ", "-");
                let anchor = to_lowercase(a2.as_str());
                push_str(&mut toc, "- [");
                push_str(&mut toc, title.as_str());
                push_str(&mut toc, "](#");
                push_str(&mut toc, anchor.as_str());
                push_str(&mut toc, ")\n");
                let b = Self::body_of(content.as_str());
                push_str(&mut body, "\n---\n\n## ");
                push_str(&mut body, title.as_str());
                push_str(&mut body, " {");
                push_str(&mut body, id.as_str());
                push_str(&mut body, "}\n\n");
                push_str(&mut body, b.as_str());
                push_str(&mut body, "\n\n");
                proof {
                    assert(title@ == doc_title(id@, content@));
                }
                match group(RE_MODULE, content.as_str(), 1) {
                    Some(m) => {
                        if !holds(&modules, &m) {
                            let ghost m0 = modules@;
                            modules.push(m);
                            assert(strs(modules@) =~= strs(m0).push(m@));
                        }
                    },
                    None => {},
                }
                let wc = word_count(&chars_of(content.as_str()), false);
                documents = documents + 1;
                words = words + wc;
            }
            i = i + 1;
        }
        assert(dv.subrange(0, docs@.len() as int) =~= dv);
        let mut compiled = owned("---\ntitle: Documentación Compilada\ngenerated: ");
        push_str(&mut compiled, generated);
        push_str(&mut compiled, "\n---\n\n");
        push_str(&mut compiled, body.as_str());
        let mut out = owned(toc.as_str());
        push_str(&mut out, "\n\n");
        push_str(&mut out, compiled.as_str());
        let mut result = CompressResult::new(self.output_path().as_str());
        result.documents_included = documents;
        result.total_words = words;
        result.modules_included = modules.len();
        result.output_bytes = utf8_len(&chars_of(out.as_str()));
        (result, out, toc, compiled, modules)
    }

    /// The body of a document (see [`doc_body`]).
    pub fn body_of(content: &str) -> (r: String)
        ensures
            r@ == doc_body(content@),
    {
        let cv = chars_of(content);
        let dash = chars_of("---");
        proof {
            reveal_strlit("---");
        }
        if starts_with(&cv, &dash) {
            let rest = slice_to_vec(&cv, 3, cv.len());
            assert(rest@ =~= content@.skip(3));
            match find(&rest, &dash) {
                Some(e) => {
                    proof {
                        crate::text::lemma_find_from(rest@, dash@, 0);
                    }
                    let tail = slice_to_vec(&cv, e + 6, cv.len());
                    assert(tail@ =~= content@.skip(e + 6));
                    string_of(&trim(&tail))
                },
                None => owned(content),
            }
        } else {
            owned(content)
        }
    }
}

proof fn lemma_all_words_prefix(docs: Seq<(Seq<char>, Seq<char>)>, i: int)
    requires
        0 <= i < docs.len(),
    ensures
        all_words(docs.subrange(0, i + 1)) <= all_words(docs),
    decreases docs.len(),
{
    if i + 1 < docs.len() {
        lemma_all_words_prefix(docs.drop_last(), i);
        assert(docs.drop_last().subrange(0, i + 1) =~= docs.subrange(0, i + 1));
    } else {
        assert(docs.subrange(0, i + 1) =~= docs);
    }
}

/// The HTML page of the compiled documentation: the date, the number of
/// documents, the table of contents and the content, line breaks of the
/// last two turned into `<br>`.
pub open spec fn spec_html_page(date: Seq<char>, doc_count: nat, toc: Seq<char>, content: Seq<char>) -> Seq<char> {
    "<!DOCTYPE html>\n<html lang=\"es\">\n<head>\n    <meta charset=\"UTF-8\">\n    <meta name=\"viewport\" content=\"width=device-width, initial-scale=1.0\">\n    <title>Documentación Compilada</title>\n    <style>\n        :root { --primary: #2563eb; --bg: #f8fafc; --text: #1e293b; }\n        body { font-family: system-ui, sans-serif; background: var(--bg); color: var(--text); max-width: 900px; margin: 0 auto; padding: 2rem; line-height: 1.6; }\n        h1, h2, h3 { color: var(--primary); }\n        pre { background: #1e293b; color: #e2e8f0; padding: 1rem; border-radius: 8px; overflow-x: auto; }\n        code { background: #e2e8f0; padding: 0.2rem 0.4rem; border-radius: 4px; }\n        a { color: var(--primary); }\n        .toc { background: white; border: 1px solid #e2e8f0; border-radius: 8px; padding: 1.5rem; margin-bottom: 2rem; }\n        .stats { color: #64748b; font-size: 0.875rem; margin-bottom: 2rem; }\n    </style>\n</head>\n<body>\n    <h1>📚 Documentación Compilada</h1>\n    <p class=\"stats\">Generado: "@ + date + " | "@ + spec_decimal(doc_count) + " documentos</p>\n    <div class=\"toc\">\n        "@ + spec_replace(toc, "\n"@, "<br>"@)
        + "\n    </div>\n    <div class=\"content\">\n        "@ + spec_replace(content, "\n"@, "<br>"@) + "\n    </div>\n</body>\n</html>"@
}

impl CompressCommand {
    /// The HTML page for a given date.
    pub fn html_page(date: &str, doc_count: usize, toc: &str, content: &str) -> (r: String)
        ensures
            r@ == spec_html_page(date@, doc_count as nat, toc@, content@),
    {
        proof {
            reveal_strlit("\n");
        }
        let mut s = crate::text::owned("<!DOCTYPE html>\n<html lang=\"es\">\n<head>\n    <meta charset=\"UTF-8\">\n    <meta name=\"viewport\" content=\"width=device-width, initial-scale=1.0\">\n    <title>Documentación Compilada</title>\n    <style>\n        :root { --primary: #2563eb; --bg: #f8fafc; --text: #1e293b; }\n        body { font-family: system-ui, sans-serif; background: var(--bg); color: var(--text); max-width: 900px; margin: 0 auto; padding: 2rem; line-height: 1.6; }\n        h1, h2, h3 { color: var(--primary); }\n        pre { background: #1e293b; color: #e2e8f0; padding: 1rem; border-radius: 8px; overflow-x: auto; }\n        code { background: #e2e8f0; padding: 0.2rem 0.4rem; border-radius: 4px; }\n        a { color: var(--primary); }\n        .toc { background: white; border: 1px solid #e2e8f0; border-radius: 8px; padding: 1.5rem; margin-bottom: 2rem; }\n        .stats { color: #64748b; font-size: 0.875rem; margin-bottom: 2rem; }\n    </style>\n</head>\n<body>\n    <h1>📚 Documentación Compilada</h1>\n    <p class=\"stats\">Generado: ");
        push_str(&mut s, date);
        push_str(&mut s, " | ");
        push_str(&mut s, decimal(doc_count).as_str());
        push_str(&mut s, " documentos</p>\n    <div class=\"toc\">\n        ");
        push_str(&mut s, crate::text::replace_str(toc, "\n", "<br>").as_str());
        push_str(&mut s, "\n    </div>\n    <div class=\"content\">\n        ");
        push_str(&mut s, crate::text::replace_str(content, "\n", "<br>").as_str());
        push_str(&mut s, "\n    </div>\n</body>\n</html>");
        s
    }

    /// The HTML page of the compiled documentation, dated now (UTC,
    /// `%Y-%m-%d %H:%M`).
    pub fn render_html(&self, toc: &str, content: &str, doc_count: usize) -> (r: String)
        ensures
            exists|date: Seq<char>| crate::clock::has_shape(date, crate::clock::minute_shape()) && r@ == spec_html_page(date, doc_count as nat, toc@, content@),
    {
        let date = crate::clock::utc_now_minute();
        CompressCommand::html_page(date.as_str(), doc_count, toc, content)
    }
}

} // verus!
