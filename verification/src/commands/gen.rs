//! Generation of new documents from templates.

use vstd::prelude::*;
use crate::text::{
    chars_of, concat2, concat3, decimal, join, owned, push_str, replace_str, spec_decimal,
    spec_join, spec_replace, spec_split, spec_split_once, spec_starts_with, spec_to_lowercase,
    spec_to_uppercase, split, split_once, starts_with, str_eq, string_of, strs, to_lowercase,
    to_uppercase, views,
};

verus! {

/// Kind of document to generate.
#[derive(Debug, Clone, PartialEq, Eq)]
pub enum DocType {
    Module,
    Document,
    Index,
    Readme,
    Custom(String),
}

/// The kind named by a (lower-cased) text.
pub open spec fn doc_type_named(s: Seq<char>) -> DocTypeView {
    if s == "module"@ { DocTypeView::Module }
    else if s == "document"@ || s == "doc"@ { DocTypeView::Document }
    else if s == "index"@ { DocTypeView::Index }
    else if s == "readme"@ { DocTypeView::Readme }
    else { DocTypeView::Custom(s) }
}

/// A kind of document, with the text of a custom kind.
pub enum DocTypeView {
    Module,
    Document,
    Index,
    Readme,
    Custom(Seq<char>),
}

/// The view of a kind.
pub open spec fn doc_type_view(t: DocType) -> DocTypeView {
    match t {
        DocType::Module => DocTypeView::Module,
        DocType::Document => DocTypeView::Document,
        DocType::Index => DocTypeView::Index,
        DocType::Readme => DocTypeView::Readme,
        DocType::Custom(s) => DocTypeView::Custom(s@),
    }
}

impl DocType {
    /// The kind named by `s`, case-insensitively; any other name is a
    /// custom kind holding the lower-cased name.
    pub fn from_str(s: &str) -> (r: DocType)
        ensures
            doc_type_view(r) == doc_type_named(spec_to_lowercase(s@)),
            crate::text::all_ascii(s@) ==> doc_type_view(r) == doc_type_named(s@.map_values(|c: char| crate::text::ascii_lower(c))),
    {
        let l = to_lowercase(s);
        let t = l.as_str();
        if str_eq(t, "module") { DocType::Module }
        else if str_eq(t, "document") || str_eq(t, "doc") { DocType::Document }
        else if str_eq(t, "index") { DocType::Index }
        else if str_eq(t, "readme") { DocType::Readme }
        else { DocType::Custom(l) }
    }
}

/// Outcome of a generation.
#[derive(Debug, Clone)]
pub struct GenResult {
    pub created_files: Vec<String>,
    pub template_used: String,
    pub variables_applied: usize,
}

impl GenResult {
    pub fn new(template: &str) -> (r: GenResult)
        ensures
            r.created_files@.len() == 0,
            r.template_used@ == template@,
            r.variables_applied == 0,
    {
        GenResult { created_files: Vec::new(), template_used: owned(template), variables_applied: 0 }
    }

    pub fn add_file(&mut self, path: &str)
        ensures
            strs(final(self).created_files@) == strs(old(self).created_files@).push(path@),
            final(self).template_used == old(self).template_used,
            final(self).variables_applied == old(self).variables_applied,
    {
        let ghost before = strs(self.created_files@);
        self.created_files.push(owned(path));
        assert(strs(self.created_files@) =~= before.push(path@));
    }
}

/// Options of the gen command.
#[derive(Debug, Clone)]
pub struct GenCommand {
    pub doc_type: String,
    pub doc_id: String,
    pub output: Option<String>,
    pub template: Option<String>,
    pub title: Option<String>,
    pub parent_id: Option<String>,
    pub module: Option<String>,
    pub var: Option<Vec<String>>,
    pub validate: bool,
}

/// The values written into a template.
#[derive(Debug, Clone)]
pub struct TemplateVars {
    pub id: String,
    pub title: String,
    pub parent_id: Option<String>,
    pub module: Option<String>,
    pub created: String,
    pub updated: String,
    pub custom: Vec<(String, String)>,
}

/// Template of a module document.
pub const MODULE_TEMPLATE: &'static str = "---\ntitle: \"{{TITLE}}\"\ndocument_id: \"{{ID}}\"\nparent_id: {{PARENT}}\nmodule: \"{{MODULE}}\"\nstatus: \"draft\"\ncreated: \"{{CREATED}}\"\nlast_updated: \"{{UPDATED}}\"\n---\n\n# {{TITLE}}\n\n## Descripción\n\n[Descripción del módulo]\n\n## Contenido\n\n[Contenido principal]\n";

/// Template of an ordinary document.
pub const DOCUMENT_TEMPLATE: &'static str = "---\ntitle: \"{{TITLE}}\"\ndocument_id: \"{{ID}}\"\nparent_id: {{PARENT}}\nmodule: \"{{MODULE}}\"\nstatus: \"draft\"\ncreated: \"{{CREATED}}\"\nlast_updated: \"{{UPDATED}}\"\n---\n\n# {{TITLE}}\n\n## Introducción\n\n[Introducción del documento]\n\n## Contenido\n\n[Contenido principal]\n\n## Referencias\n\n- [Referencias relevantes]\n";

/// Template of an index.
pub const INDEX_TEMPLATE: &'static str = "---\ntitle: \"Índice - {{TITLE}}\"\ndocument_id: \"{{ID}}\"\ntype: \"index\"\ncreated: \"{{CREATED}}\"\n---\n\n# Índice: {{TITLE}}\n\n## Documentos\n\n| ID | Título | Estado |\n|----|--------|--------|\n| - | - | - |\n";

/// Template of any other document.
pub const DEFAULT_TEMPLATE: &'static str = "---\ntitle: \"{{TITLE}}\"\ndocument_id: \"{{ID}}\"\nparent_id: {{PARENT}}\ncreated: \"{{CREATED}}\"\nlast_updated: \"{{UPDATED}}\"\n---\n\n# {{TITLE}}\n\n[Contenido]\n";

/// The template of a kind of document.
pub open spec fn template_of(t: DocTypeView) -> Seq<char> {
    match t {
        DocTypeView::Module => MODULE_TEMPLATE@,
        DocTypeView::Document => DOCUMENT_TEMPLATE@,
        DocTypeView::Index => INDEX_TEMPLATE@,
        _ => DEFAULT_TEMPLATE@,
    }
}

/// The custom variables applied in order: each `{{KEY}}` (key upper-cased)
/// replaced by its value.
pub open spec fn apply_custom(c: Seq<char>, vars: Seq<(Seq<char>, Seq<char>)>) -> Seq<char>
    decreases vars.len(),
{
    if vars.len() == 0 {
        c
    } else {
        let (k, v) = vars.last();
        spec_replace(apply_custom(c, vars.drop_last()), "{{"@ + spec_to_uppercase(k) + "}}"@, v)
    }
}

/// The texts of the custom variables.
pub open spec fn custom_view(v: Seq<(String, String)>) -> Seq<(Seq<char>, Seq<char>)> {
    v.map_values(|p: (String, String)| (p.0@, p.1@))
}

/// The rendered document: the standard placeholders replaced in order
/// (title, id, parent, module, creation, update), then the custom ones.
pub open spec fn spec_render(t: DocTypeView, vars: TemplateVars) -> Seq<char> {
    let parent = match vars.parent_id { Some(p) => "\""@ + p@ + "\""@, None => "null"@ };
    let module = match vars.module { Some(m) => m@, None => "General"@ };
    let c = spec_replace(spec_replace(spec_replace(spec_replace(spec_replace(spec_replace(
        template_of(t), "{{TITLE}}"@, vars.title@), "{{ID}}"@, vars.id@), "{{PARENT}}"@, parent),
        "{{MODULE}}"@, module), "{{CREATED}}"@, vars.created@), "{{UPDATED}}"@, vars.updated@);
    apply_custom(c, custom_view(vars.custom@))
}

/// `key=value` entries, each key kept once with its last value, keys in
/// first-appearance order.
pub open spec fn spec_custom_vars(entries: Seq<Seq<char>>) -> Seq<(Seq<char>, Seq<char>)>
    decreases entries.len(),
{
    if entries.len() == 0 {
        Seq::empty()
    } else {
        let p = spec_custom_vars(entries.drop_last());
        match spec_split_once(entries.last(), '=') {
            Some((k, v)) => set_var(p, k, v),
            None => p,
        }
    }
}

/// A variable set: its value replaced where the key is present, appended
/// otherwise.
pub open spec fn set_var(vs: Seq<(Seq<char>, Seq<char>)>, k: Seq<char>, v: Seq<char>) -> Seq<(Seq<char>, Seq<char>)>
    decreases vs.len(),
{
    if vs.len() == 0 {
        seq![(k, v)]
    } else if vs[0].0 == k {
        vs.update(0, (k, v))
    } else {
        seq![vs[0]] + set_var(vs.drop_first(), k, v)
    }
}

/// The parent of an id: all but its last dot-separated part, when there
/// are several.
pub open spec fn spec_parent_id(id: Seq<char>) -> Option<Seq<char>> {
    let parts = spec_split(id, '.');
    if parts.len() > 1 { Some(spec_join(parts.drop_last(), "."@)) } else { None }
}

/// Number of stems starting with `prefix`.
pub open spec fn count_prefixed(stems: Seq<Seq<char>>, prefix: Seq<char>) -> nat {
    stems.filter(|s: Seq<char>| spec_starts_with(s, prefix)).len()
}

impl GenCommand {
    /// The kind of document asked for.
    pub fn doc_type(&self) -> (t: DocType)
        ensures
            doc_type_view(t) == doc_type_named(spec_to_lowercase(self.doc_type@)),
    {
        DocType::from_str(self.doc_type.as_str())
    }

    /// The parent of a document id (`"1.2.3"` gives `"1.2"`).
    pub fn calculate_parent_id(&self, doc_id: &str) -> (r: Option<String>)
        ensures
            match r {
                Some(p) => spec_parent_id(doc_id@) == Some(p@),
                None => spec_parent_id(doc_id@) is None,
            },
    {
        let parts = split(&chars_of(doc_id), '.');
        if parts.len() > 1 {
            let mut v: Vec<String> = Vec::new();
            let mut i: usize = 0;
            while i < parts.len() - 1
                invariant
                    i + 1 <= parts@.len(),
                    views(parts@) == spec_split(doc_id@, '.'),
                    strs(v@) == views(parts@).drop_last().subrange(0, i as int),
                decreases parts@.len() - i,
            {
                let ghost v0 = strs(v@);
                v.push(string_of(parts[i].as_slice()));
                assert(strs(v@) =~= v0.push(views(parts@)[i as int]));
                assert(strs(v@) =~= views(parts@).drop_last().subrange(0, i + 1));
                i = i + 1;
            }
            assert(views(parts@).drop_last().subrange(0, i as int) =~= views(parts@).drop_last());
            Some(join(&v, "."))
        } else {
            None
        }
    }

    /// The next id of the module: `<module>.<n+1>`, `n` being the stems that
    /// start with the module (`0` without module).
    pub fn auto_generate_id(&self, stems: &Vec<String>) -> (r: String)
        requires
            stems@.len() < usize::MAX,
        ensures
            r@ == (match self.module { Some(m) => m@, None => "0"@ }) + "."@
                + spec_decimal(count_prefixed(strs(stems@), match self.module { Some(m) => m@, None => "0"@ }) + 1),
    {
        let prefix = match &self.module {
            Some(m) => m.clone(),
            None => owned("0"),
        };
        let pv = chars_of(prefix.as_str());
        let ghost sv = strs(stems@);
        let mut count: usize = 0;
        let mut i: usize = 0;
        while i < stems.len()
            invariant
                i <= stems@.len(),
                stems@.len() < usize::MAX,
                sv == strs(stems@),
                count == sv.subrange(0, i as int).filter(|s: Seq<char>| spec_starts_with(s, pv@)).len(),
                count <= i,
            decreases stems@.len() - i,
        {
            proof {
                let sub = sv.subrange(0, i + 1);
                assert(sub.drop_last() =~= sv.subrange(0, i as int));
                reveal_with_fuel(Seq::<_>::filter, 1);
                assert(sv[i as int] == stems@[i as int]@);
            }
            if starts_with(&chars_of(stems[i].as_str()), &pv) {
                count = count + 1;
            }
            i = i + 1;
        }
        assert(sv.subrange(0, stems@.len() as int) =~= sv);
        concat3(prefix.as_str(), ".", decimal(count + 1).as_str())
    }

    /// The custom variables given as `KEY=VALUE`.
    pub fn parse_custom_vars(&self) -> (r: Vec<(String, String)>)
        ensures
            custom_view(r@) == match self.var {
                Some(v) => spec_custom_vars(strs(v@)),
                None => Seq::empty(),
            },
    {
        let mut r: Vec<(String, String)> = Vec::new();
        match &self.var {
            Some(list) => {
                let ghost lv = strs(list@);
                let mut i: usize = 0;
                while i < list.len()
                    invariant
                        i <= list@.len(),
                        lv == strs(list@),
                        custom_view(r@) == spec_custom_vars(lv.subrange(0, i as int)),
                    decreases list@.len() - i,
                {
                    let ghost sub = lv.subrange(0, i + 1);
                    assert(sub.drop_last() =~= lv.subrange(0, i as int));
                    assert(sub.last() == list@[i as int]@);
                    match split_once(list[i].as_str(), '=') {
                        Some((k, v)) => {
                            set_var_exec(&mut r, k, v);
                        },
                        None => {},
                    }
                    i = i + 1;
                }
                assert(lv.subrange(0, list@.len() as int) =~= lv);
            },
            None => {
                assert(custom_view(r@) =~= Seq::<(Seq<char>, Seq<char>)>::empty());
            },
        }
        r
    }

    /// The document rendered from its template.
    pub fn render_template(&self, vars: &TemplateVars) -> (r: String)
        ensures
            r@ == spec_render(doc_type_named(spec_to_lowercase(self.doc_type@)), *vars),
    {
        let t = self.doc_type();
        let base = match t {
            DocType::Module => MODULE_TEMPLATE,
            DocType::Document => DOCUMENT_TEMPLATE,
            DocType::Index => INDEX_TEMPLATE,
            _ => DEFAULT_TEMPLATE,
        };
        let parent = match &vars.parent_id {
            Some(p) => concat3("\"", p.as_str(), "\""),
            None => owned("null"),
        };
        let module = match &vars.module {
            Some(m) => m.clone(),
            None => owned("General"),
        };
        proof {
            reveal_strlit("{{TITLE}}");
            reveal_strlit("{{ID}}");
            reveal_strlit("{{PARENT}}");
            reveal_strlit("{{MODULE}}");
            reveal_strlit("{{CREATED}}");
            reveal_strlit("{{UPDATED}}");
        }
        let c1 = replace_str(base, "{{TITLE}}", vars.title.as_str());
        let c2 = replace_str(c1.as_str(), "{{ID}}", vars.id.as_str());
        let c3 = replace_str(c2.as_str(), "{{PARENT}}", parent.as_str());
        let c4 = replace_str(c3.as_str(), "{{MODULE}}", module.as_str());
        let c5 = replace_str(c4.as_str(), "{{CREATED}}", vars.created.as_str());
        let mut c = replace_str(c5.as_str(), "{{UPDATED}}", vars.updated.as_str());
        let ghost cv = custom_view(vars.custom@);
        let ghost c6 = c@;
        let mut i: usize = 0;
        while i < vars.custom.len()
            invariant
                i <= vars.custom@.len(),
                cv == custom_view(vars.custom@),
                c@ == apply_custom(c6, cv.subrange(0, i as int)),
            decreases vars.custom@.len() - i,
        {
            let ghost sub = cv.subrange(0, i + 1);
            assert(sub.drop_last() =~= cv.subrange(0, i as int));
            let key = concat3("{{", to_uppercase(vars.custom[i].0.as_str()).as_str(), "}}");
            proof {
                reveal_strlit("{{");
            }
            c = replace_str(c.as_str(), key.as_str(), vars.custom[i].1.as_str());
            i = i + 1;
        }
        assert(cv.subrange(0, vars.custom@.len() as int) =~= cv);
        c
    }

    /// The template name used: the one given, or `default`.
    pub fn template_name(&self) -> (r: String)
        ensures
            r@ == match self.template { Some(t) => t@, None => "default"@ },
    {
        match &self.template {
            Some(t) => t.clone(),
            None => owned("default"),
        }
    }

    /// The title of the document: the one given, or `Documento <id>`.
    pub fn title_for(&self, doc_id: &str) -> (r: String)
        ensures
            r@ == match self.title { Some(t) => t@, None => "Documento "@ + doc_id@ },
    {
        match &self.title {
            Some(t) => t.clone(),
            None => concat2("Documento ", doc_id),
        }
    }
}

/// Sets a custom variable.
fn set_var_exec(r: &mut Vec<(String, String)>, k: String, v: String)
    ensures
        custom_view(final(r)@) == set_var(custom_view(old(r)@), k@, v@),
{
    let ghost cv = custom_view(r@);
    let mut i: usize = 0;
    assert(cv.subrange(0, 0) + cv.skip(0) =~= cv);
    while i < r.len()
        invariant
            i <= r@.len(),
            cv == custom_view(r@),
            r@ == old(r)@,
            set_var(cv, k@, v@) == cv.subrange(0, i as int) + set_var(cv.skip(i as int), k@, v@),
        decreases r@.len() - i,
    {
        let ghost rest = cv.skip(i as int);
        assert(rest[0] == cv[i as int]);
        if str_eq(r[i].0.as_str(), k.as_str()) {
            r.set(i, (k, v));
            assert(custom_view(r@) =~= cv.subrange(0, i as int) + rest.update(0, (k@, v@)));
            return;
        }
        assert(rest.drop_first() =~= cv.skip(i + 1));
        assert(cv.subrange(0, i as int) + (seq![rest[0]] + set_var(rest.drop_first(), k@, v@))
            =~= cv.subrange(0, i + 1) + set_var(cv.skip(i + 1), k@, v@));
        i = i + 1;
    }
    r.push((k, v));
    assert(cv.skip(i as int) =~= Seq::<(Seq<char>, Seq<char>)>::empty());
    assert(cv.subrange(0, i as int) =~= cv);
    assert(custom_view(r@) =~= cv.push((k@, v@)));
}

/// The warnings about a generated document: no front matter, then each of
/// `title:` and `document_id:` that does not occur.
pub open spec fn spec_generated_warnings(content: Seq<char>) -> Seq<Seq<char>> {
    (if !crate::text::spec_starts_with(content, "---"@) { seq!["⚠️ Advertencia: documento sin frontmatter válido"@] } else { Seq::empty() })
        + (if !crate::text::spec_contains(content, "title:"@) { seq!["⚠️ Campo faltante: title:"@] } else { Seq::empty() })
        + (if !crate::text::spec_contains(content, "document_id:"@) { seq!["⚠️ Campo faltante: document_id:"@] } else { Seq::empty() })
}

impl GenCommand {
    /// The warnings about the structure of a generated document.
    pub fn validate_generated(&self, content: &str) -> (r: Vec<String>)
        ensures
            crate::text::strs(r@) == spec_generated_warnings(content@),
    {
        let c = crate::text::chars_of(content);
        let mut r: Vec<String> = Vec::new();
        if !crate::text::starts_with(&c, &crate::text::chars_of("---")) {
            r.push(crate::text::owned("⚠️ Advertencia: documento sin frontmatter válido"));
        }
        if crate::text::find(&c, &crate::text::chars_of("title:")).is_none() {
            r.push(crate::text::owned("⚠️ Campo faltante: title:"));
        }
        if crate::text::find(&c, &crate::text::chars_of("document_id:")).is_none() {
            r.push(crate::text::owned("⚠️ Campo faltante: document_id:"));
        }
        assert(crate::text::strs(r@) =~= spec_generated_warnings(content@));
        r
    }
}

} // verus!
