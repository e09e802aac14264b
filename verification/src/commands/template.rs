//! Document templates.

use vstd::prelude::*;
use crate::text::owned;

verus! {

/// A template.
#[derive(Debug, Clone)]
pub struct TemplateInfo {
    pub name: String,
    pub path: String,
    pub variables: Vec<String>,
    pub description: String,
}

impl TemplateInfo {
    pub fn new(name: &str, path: &str) -> (t: TemplateInfo)
        ensures
            t.name@ == name@,
            t.path@ == path@,
            t.variables@.len() == 0,
            t.description@.len() == 0,
    {
        TemplateInfo { name: owned(name), path: owned(path), variables: Vec::new(), description: String::new() }
    }
}

/// Outcome of a template command.
#[derive(Debug, Clone)]
pub struct TemplateResult {
    pub templates: Vec<TemplateInfo>,
    pub action: String,
}

impl TemplateResult {
    pub fn list(templates: Vec<TemplateInfo>) -> (r: TemplateResult)
        ensures
            r.templates@ == templates@,
            r.action@ == "list"@,
    {
        TemplateResult { templates, action: owned("list") }
    }

    pub fn created(template: TemplateInfo) -> (r: TemplateResult)
        ensures
            r.templates@ == seq![template],
            r.action@ == "created"@,
    {
        TemplateResult { templates: vec![template], action: owned("created") }
    }
}

/// Options of the template command.
#[derive(Debug, Clone)]
pub struct TemplateCommand {
    pub name: Option<String>,
    pub list: bool,
    pub create: bool,
    pub path: Option<String>,
}

impl TemplateCommand {
    /// Lists the built-in templates (document, module, index) when asked or
    /// when no name is given; otherwise describes the template to create,
    /// at the path given or `templates/new.md`.
    pub fn run(&self) -> (r: TemplateResult)
        ensures
            (self.list || self.name is None) ==> r.action@ == "list"@ && r.templates@.len() == 3
                && r.templates@[0].name@ == "document"@ && r.templates@[0].path@ == "templates/document.md"@
                && r.templates@[1].name@ == "module"@ && r.templates@[1].path@ == "templates/module.md"@
                && r.templates@[2].name@ == "index"@ && r.templates@[2].path@ == "templates/index.md"@,
            !(self.list || self.name is None) ==> r.action@ == "created"@ && r.templates@.len() == 1
                && r.templates@[0].name@ == self.name->0@
                && r.templates@[0].path@ == match self.path { Some(p) => p@, None => "templates/new.md"@ },
    {
        if self.list || self.name.is_none() {
            let templates = vec![
                TemplateInfo::new("document", "templates/document.md"),
                TemplateInfo::new("module", "templates/module.md"),
                TemplateInfo::new("index", "templates/index.md"),
            ];
            TemplateResult::list(templates)
        } else {
            let name = match &self.name { Some(n) => n.as_str(), None => "new" };
            let path = match &self.path { Some(p) => p.as_str(), None => "templates/new.md" };
            TemplateResult::created(TemplateInfo::new(name, path))
        }
    }
}

} // verus!
