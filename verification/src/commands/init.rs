//! Initialization of a new documentation project.

use vstd::prelude::*;
use crate::paths::{file_name, path_join, spec_file_name, spec_path_join};
use crate::text::{concat2, owned, push_str, spec_to_lowercase, str_eq, strs, to_lowercase};

verus! {

/// How complete the initial layout is.
#[derive(Debug, Clone, Copy, PartialEq, Eq, Structural)]
pub enum InitPreset {
    Minimal,
    Standard,
    Full,
    Custom,
}

/// Outcome of an initialization.
#[derive(Debug, Clone)]
pub struct InitResult {
    pub project_path: String,
    pub files_created: Vec<String>,
    pub directories_created: Vec<String>,
}

impl InitResult {
    pub fn new(path: &str) -> (r: InitResult)
        ensures
            r.project_path@ == path@,
            r.files_created@.len() == 0,
            r.directories_created@.len() == 0,
    {
        InitResult { project_path: owned(path), files_created: Vec::new(), directories_created: Vec::new() }
    }

    /// Files and directories created.
    pub fn total_items(&self) -> (n: usize)
        requires
            self.files_created@.len() + self.directories_created@.len() <= usize::MAX,
        ensures
            n == self.files_created@.len() + self.directories_created@.len(),
    {
        self.files_created.len() + self.directories_created.len()
    }
}

/// Options of the init command.
#[derive(Debug, Clone)]
pub struct InitCommand {
    pub path: String,
    pub preset: String,
    pub force: bool,
    pub template: String,
    pub name: Option<String>,
    pub dry_run: bool,
}

/// The preset named by a (lower-cased) text.
pub open spec fn preset_named(s: Seq<char>) -> InitPreset {
    if s == "minimal"@ || s == "min"@ { InitPreset::Minimal }
    else if s == "standard"@ || s == "std"@ { InitPreset::Standard }
    else if s == "full"@ { InitPreset::Full }
    else { InitPreset::Custom }
}

/// The directories of a project layout.
pub open spec fn project_dirs(base: Seq<char>, p: InitPreset) -> Seq<Seq<char>> {
    let core = seq![spec_path_join(base, "docs"@), spec_path_join(base, "templates"@)];
    let std = if p == InitPreset::Standard || p == InitPreset::Full {
        seq![spec_path_join(base, "docs/modulos"@), spec_path_join(base, "assets"@)]
    } else {
        Seq::empty()
    };
    let full = if p == InitPreset::Full {
        seq![spec_path_join(base, "docs/drafts"@), spec_path_join(base, "docs/archive"@), spec_path_join(base, "scripts"@)]
    } else {
        Seq::empty()
    };
    core + std + full
}

/// The module name given, or `nuevo_modulo`.
pub open spec fn module_name(name: Option<String>) -> Seq<char> {
    match name { Some(n) => n@, None => "nuevo_modulo"@ }
}

/// The project name: the one given, the last component of the path, or
/// `MiProyecto`.
pub open spec fn project_name(cmd: InitCommand) -> Seq<char> {
    match cmd.name {
        Some(n) => n@,
        None => match spec_file_name(cmd.path@) { Some(f) => f, None => "MiProyecto"@ },
    }
}

/// The configuration file of a new project.
pub open spec fn config_text(name: Seq<char>, today: Seq<char>) -> Seq<char> {
    "# Configuración oc_diagdoc\n# Generado automáticamente\n\nproject:\n  name: \""@ + name
        + "\"\n  version: \"1.0.0\"\n  created: \""@ + today + CONFIG_TAIL@
}

/// The rest of the configuration file.
pub const CONFIG_TAIL: &'static str = "\"\n\npaths:\n  docs: \"docs\"\n  templates: \"templates\"\n  assets: \"assets\"\n\nvalidation:\n  require_frontmatter: true\n  require_document_id: true\n  max_orphan_depth: 2\n\nlint:\n  enabled_rules:\n    - L001  # Frontmatter\n    - L002  # document_id\n    - L003  # Title heading\n    - L004  # Empty files\n    - L005  # Broken links\n";

/// The master document of a new project.
pub open spec fn master_text(name: Seq<char>, today: Seq<char>) -> Seq<char> {
    "---\ntitle: \"Contextualizador - "@ + name + "\"\ndocument_id: \"0\"\ntype: \"master\"\nstatus: \"draft\"\ncreated: \""@
        + today + "\"\nlast_updated: \""@ + today + "\"\nchildren_count: 0\n---\n\n# "@ + name + MASTER_TAIL@
}

/// The rest of the master document.
pub const MASTER_TAIL: &'static str = " - Documentación\n\n## Descripción General\n\n[Descripción del proyecto]\n\n## Estructura de Módulos\n\n| # | Módulo | Descripción |\n|---|--------|-------------|\n| 1 | [Módulo 1](./modulos/1/) | Por definir |\n\n## Navegación\n\n- [Inicio](#)\n- [Módulos](./modulos/)\n";

/// The document template of a new project.
pub const DOCUMENT_TEMPLATE: &'static str = "---\ntitle: \"{{TITLE}}\"\ndocument_id: \"{{ID}}\"\nparent_id: {{PARENT}}\nstatus: \"draft\"\ncreated: \"{{CREATED}}\"\nlast_updated: \"{{UPDATED}}\"\n---\n\n# {{TITLE}}\n\n## Contenido\n\n[Contenido del documento]\n";

/// The README of a new module.
pub open spec fn module_readme(m: Seq<char>, today: Seq<char>) -> Seq<char> {
    "---\ntitle: \""@ + m + "\"\ndocument_id: \""@ + m + ".0\"\ntype: \"module_root\"\nstatus: \"draft\"\ncreated: \""@
        + today + "\"\nlast_updated: \""@ + today + "\"\n---\n\n# "@ + m + MODULE_TAIL@
}

/// The rest of a module README.
pub const MODULE_TAIL: &'static str = "\n\n## Descripción\n\n[Descripción del módulo]\n\n## Documentos\n\n| ID | Título | Estado |\n|----|--------|--------|\n| - | - | - |\n";

/// The files of a new project, as (path, content).
pub open spec fn base_files(cmd: InitCommand, today: Seq<char>) -> Seq<(Seq<char>, Seq<char>)> {
    if cmd.template@ == "modulo"@ {
        let m = module_name(cmd.name);
        seq![(spec_path_join(spec_path_join(cmd.path@, "docs/modulos/"@ + m), "README.md"@), module_readme(m, today))]
    } else {
        let n = project_name(cmd);
        seq![
            (spec_path_join(cmd.path@, "oc_diagdoc.yaml"@), config_text(n, today)),
            (spec_path_join(cmd.path@, "docs/0. Contextualizador.md"@), master_text(n, today)),
            (spec_path_join(cmd.path@, "templates/document.md"@), DOCUMENT_TEMPLATE@),
        ]
    }
}

/// The texts of (path, content) pairs.
pub open spec fn pairs_view(v: Seq<(String, String)>) -> Seq<(Seq<char>, Seq<char>)> {
    v.map_values(|p: (String, String)| (p.0@, p.1@))
}

impl InitCommand {
    /// The preset asked for, case-insensitively; unknown names are custom.
    pub fn preset_enum(&self) -> (p: InitPreset)
        ensures
            p == preset_named(spec_to_lowercase(self.preset@)),
            crate::text::all_ascii(self.preset@) ==> p == preset_named(self.preset@.map_values(|c: char| crate::text::ascii_lower(c))),
    {
        let l = to_lowercase(self.preset.as_str());
        let t = l.as_str();
        if str_eq(t, "minimal") || str_eq(t, "min") { InitPreset::Minimal }
        else if str_eq(t, "standard") || str_eq(t, "std") { InitPreset::Standard }
        else if str_eq(t, "full") { InitPreset::Full }
        else { InitPreset::Custom }
    }

    /// The directories to create: those of a module for the `modulo`
    /// template, the project layout of the preset otherwise.
    pub fn directories(&self) -> (r: Vec<String>)
        ensures
            strs(r@) == if self.template@ == "modulo"@ {
                let b = spec_path_join(self.path@, "docs/modulos/"@ + module_name(self.name));
                seq![b, spec_path_join(b, "assets"@)]
            } else {
                project_dirs(self.path@, preset_named(spec_to_lowercase(self.preset@)))
            },
    {
        let mut r: Vec<String> = Vec::new();
        let base = self.path.as_str();
        if str_eq(self.template.as_str(), "modulo") {
            let m = match &self.name { Some(n) => n.as_str(), None => "nuevo_modulo" };
            let b = path_join(base, concat2("docs/modulos/", m).as_str());
            let a = path_join(b.as_str(), "assets");
            r.push(b);
            r.push(a);
        } else {
            let p = self.preset_enum();
            r.push(path_join(base, "docs"));
            r.push(path_join(base, "templates"));
            if p == InitPreset::Standard || p == InitPreset::Full {
                r.push(path_join(base, "docs/modulos"));
                r.push(path_join(base, "assets"));
            }
            if p == InitPreset::Full {
                r.push(path_join(base, "docs/drafts"));
                r.push(path_join(base, "docs/archive"));
                r.push(path_join(base, "scripts"));
            }
        }
        assert(strs(r@) =~= if self.template@ == "modulo"@ {
            let b = spec_path_join(self.path@, "docs/modulos/"@ + module_name(self.name));
            seq![b, spec_path_join(b, "assets"@)]
        } else {
            project_dirs(self.path@, preset_named(spec_to_lowercase(self.preset@)))
        });
        r
    }

    /// The files to write, dated `today`.
    pub fn base_files(&self, today: &str) -> (r: Vec<(String, String)>)
        ensures
            pairs_view(r@) == base_files(*self, today@),
    {
        let mut r: Vec<(String, String)> = Vec::new();
        if str_eq(self.template.as_str(), "modulo") {
            let m = match &self.name { Some(n) => n.as_str(), None => "nuevo_modulo" };
            let b = path_join(self.path.as_str(), concat2("docs/modulos/", m).as_str());
            let mut readme = owned("---\ntitle: \"");
            push_str(&mut readme, m);
            push_str(&mut readme, "\"\ndocument_id: \"");
            push_str(&mut readme, m);
            push_str(&mut readme, ".0\"\ntype: \"module_root\"\nstatus: \"draft\"\ncreated: \"");
            push_str(&mut readme, today);
            push_str(&mut readme, "\"\nlast_updated: \"");
            push_str(&mut readme, today);
            push_str(&mut readme, "\"\n---\n\n# ");
            push_str(&mut readme, m);
            push_str(&mut readme, MODULE_TAIL);
            r.push((path_join(b.as_str(), "README.md"), readme));
        } else {
            let n = match &self.name {
                Some(n) => n.clone(),
                None => match file_name(self.path.as_str()) {
                    Some(f) => f,
                    None => owned("MiProyecto"),
                },
            };
            let mut config = owned("# Configuración oc_diagdoc\n# Generado automáticamente\n\nproject:\n  name: \"");
            push_str(&mut config, n.as_str());
            push_str(&mut config, "\"\n  version: \"1.0.0\"\n  created: \"");
            push_str(&mut config, today);
            push_str(&mut config, CONFIG_TAIL);
            let mut master = owned("---\ntitle: \"Contextualizador - ");
            push_str(&mut master, n.as_str());
            push_str(&mut master, "\"\ndocument_id: \"0\"\ntype: \"master\"\nstatus: \"draft\"\ncreated: \"");
            push_str(&mut master, today);
            push_str(&mut master, "\"\nlast_updated: \"");
            push_str(&mut master, today);
            push_str(&mut master, "\"\nchildren_count: 0\n---\n\n# ");
            push_str(&mut master, n.as_str());
            push_str(&mut master, MASTER_TAIL);
            r.push((path_join(self.path.as_str(), "oc_diagdoc.yaml"), config));
            r.push((path_join(self.path.as_str(), "docs/0. Contextualizador.md"), master));
            r.push((path_join(self.path.as_str(), "templates/document.md"), owned(DOCUMENT_TEMPLATE)));
        }
        assert(pairs_view(r@) =~= base_files(*self, today@));
        r
    }
}

impl InitCommand {
    /// The files to write, dated today (UTC).
    pub fn generate_base_files(&self) -> (r: Vec<(String, String)>)
        ensures
            exists|today: Seq<char>| crate::clock::has_shape(today, crate::clock::date_shape()) && pairs_view(r@) == base_files(*self, today),
    {
        let today = crate::clock::utc_today();
        self.base_files(today.as_str())
    }
}

} // verus!
