//! Generation of project documentation (README, CHANGELOG).

use vstd::prelude::*;
use crate::text::{join, owned, push_str, repeat_char, spec_join, spec_repeat, strs};

verus! {

/// A documentation section.
#[derive(Debug, Clone)]
pub struct DocSection {
    pub title: String,
    pub content: String,
    pub level: u8,
}

/// Markdown of a section: `level` hashes, the title, a blank line, the content.
pub open spec fn section_markdown(title: Seq<char>, content: Seq<char>, level: u8) -> Seq<char> {
    spec_repeat('#', level as nat) + seq![' '] + title + seq!['\n', '\n'] + content
}

/// The texts of a section.
pub open spec fn section_view(s: DocSection) -> (Seq<char>, Seq<char>, u8) {
    (s.title@, s.content@, s.level)
}

impl DocSection {
    pub fn new(title: &str, content: &str, level: u8) -> (s: DocSection)
        ensures
            section_view(s) == (title@, content@, level),
    {
        DocSection { title: owned(title), content: owned(content), level }
    }

    /// The section as Markdown.
    pub fn to_markdown(&self) -> (s: String)
        ensures
            s@ == section_markdown(self.title@, self.content@, self.level),
    {
        let mut s = repeat_char('#', self.level as usize);
        push_str(&mut s, " ");
        push_str(&mut s, self.title.as_str());
        push_str(&mut s, "\n\n");
        push_str(&mut s, self.content.as_str());
        proof {
            reveal_strlit(" ");
            reveal_strlit("\n\n");
            assert(s@ =~= section_markdown(self.title@, self.content@, self.level));
        }
        s
    }
}

/// A generated document.
#[derive(Debug, Clone)]
pub struct GeneratedDoc {
    pub name: String,
    pub sections: Vec<DocSection>,
}

/// The Markdown of every section.
pub open spec fn sections_markdown(v: Seq<DocSection>) -> Seq<Seq<char>> {
    v.map_values(|s: DocSection| section_markdown(s.title@, s.content@, s.level))
}

/// The texts of every section.
pub open spec fn sections_view(v: Seq<DocSection>) -> Seq<(Seq<char>, Seq<char>, u8)> {
    v.map_values(|s: DocSection| section_view(s))
}

impl GeneratedDoc {
    pub fn new(name: &str) -> (d: GeneratedDoc)
        ensures
            d.name@ == name@,
            d.sections@.len() == 0,
    {
        GeneratedDoc { name: owned(name), sections: Vec::new() }
    }

    pub fn add_section(&mut self, section: DocSection)
        ensures
            final(self).name == old(self).name,
            final(self).sections@ == old(self).sections@.push(section),
    {
        self.sections.push(section);
    }

    /// The sections as Markdown, separated by blank lines.
    pub fn to_markdown(&self) -> (s: String)
        ensures
            s@ == spec_join(sections_markdown(self.sections@), seq!['\n', '\n']),
    {
        let mut parts: Vec<String> = Vec::new();
        let mut i: usize = 0;
        while i < self.sections.len()
            invariant
                i <= self.sections@.len(),
                strs(parts@) == sections_markdown(self.sections@).subrange(0, i as int),
            decreases self.sections@.len() - i,
        {
            let m = self.sections[i].to_markdown();
            let ghost before = parts@;
            parts.push(m);
            assert(strs(parts@) =~= strs(before).push(m@));
            assert(strs(parts@) =~= sections_markdown(self.sections@).subrange(0, i + 1));
            i = i + 1;
        }
        assert(sections_markdown(self.sections@).subrange(0, self.sections@.len() as int)
            =~= sections_markdown(self.sections@));
        let r = join(&parts, "\n\n");
        proof {
            reveal_strlit("\n\n");
            assert("\n\n"@ =~= seq!['\n', '\n']);
        }
        r
    }
}

/// README generator.
pub struct ReadmeGenerator {
    pub project_name: String,
    pub version: String,
}

/// The sections of the generated README.
pub open spec fn readme_sections(name: Seq<char>, version: Seq<char>) -> Seq<(Seq<char>, Seq<char>, u8)> {
    seq![
        (name + " v"@ + version, "Sistema de diagnóstico de documentación técnica."@, 1u8),
        ("Instalación"@, "```bash\ncargo install oc_diagdoc\n```"@, 2u8),
        ("Uso"@, "```bash\noc_diagdoc verify\noc_diagdoc stats\noc_diagdoc health\n```"@, 2u8),
    ]
}

impl ReadmeGenerator {
    pub fn new(name: &str, version: &str) -> (g: ReadmeGenerator)
        ensures
            g.project_name@ == name@,
            g.version@ == version@,
    {
        ReadmeGenerator { project_name: owned(name), version: owned(version) }
    }

    /// `README.md` with a title section, an installation section and a usage section.
    pub fn generate(&self) -> (d: GeneratedDoc)
        ensures
            d.name@ == "README.md"@,
            sections_view(d.sections@) == readme_sections(self.project_name@, self.version@),
    {
        let mut doc = GeneratedDoc::new("README.md");
        let mut title = owned(self.project_name.as_str());
        push_str(&mut title, " v");
        push_str(&mut title, self.version.as_str());
        doc.add_section(DocSection::new(title.as_str(), "Sistema de diagnóstico de documentación técnica.", 1));
        doc.add_section(DocSection::new("Instalación", "```bash\ncargo install oc_diagdoc\n```", 2));
        doc.add_section(DocSection::new("Uso", "```bash\noc_diagdoc verify\noc_diagdoc stats\noc_diagdoc health\n```", 2));
        assert(sections_view(doc.sections@) =~= readme_sections(self.project_name@, self.version@));
        doc
    }
}

/// A CHANGELOG entry.
#[derive(Debug, Clone)]
pub struct ChangelogEntry {
    pub version: String,
    pub date: String,
    pub changes: Vec<String>,
}

/// CHANGELOG generator.
pub struct ChangelogGenerator {
    pub entries: Vec<ChangelogEntry>,
}

/// `- {change}` for every change.
pub open spec fn bullets(changes: Seq<Seq<char>>) -> Seq<Seq<char>> {
    changes.map_values(|c: Seq<char>| "- "@ + c)
}

/// The section of an entry: `[version] - date`, its changes as a bullet list.
pub open spec fn entry_section(e: ChangelogEntry) -> (Seq<char>, Seq<char>, u8) {
    ("["@ + e.version@ + "] - "@ + e.date@, spec_join(bullets(strs(e.changes@)), seq!['\n']), 2u8)
}

impl ChangelogGenerator {
    pub fn new() -> (g: ChangelogGenerator)
        ensures
            g.entries@.len() == 0,
    {
        ChangelogGenerator { entries: Vec::new() }
    }

    pub fn add_entry(&mut self, entry: ChangelogEntry)
        ensures
            final(self).entries@ == old(self).entries@.push(entry),
    {
        self.entries.push(entry);
    }

    /// `CHANGELOG.md`: a title section, then one section per entry.
    pub fn generate(&self) -> (d: GeneratedDoc)
        ensures
            d.name@ == "CHANGELOG.md"@,
            sections_view(d.sections@) == seq![("Changelog"@, "Historial de cambios."@, 1u8)]
                + self.entries@.map_values(|e: ChangelogEntry| entry_section(e)),
    {
        let mut doc = GeneratedDoc::new("CHANGELOG.md");
        doc.add_section(DocSection::new("Changelog", "Historial de cambios.", 1));
        let mut i: usize = 0;
        assert(sections_view(doc.sections@) =~= seq![("Changelog"@, "Historial de cambios."@, 1u8)]
            + self.entries@.map_values(|e: ChangelogEntry| entry_section(e)).subrange(0, 0));
        while i < self.entries.len()
            invariant
                i <= self.entries@.len(),
                doc.name@ == "CHANGELOG.md"@,
                sections_view(doc.sections@) == seq![("Changelog"@, "Historial de cambios."@, 1u8)]
                    + self.entries@.map_values(|e: ChangelogEntry| entry_section(e)).subrange(0, i as int),
            decreases self.entries@.len() - i,
        {
            let e = &self.entries[i];
            let mut lines: Vec<String> = Vec::new();
            let mut k: usize = 0;
            while k < e.changes.len()
                invariant
                    k <= e.changes@.len(),
                    strs(lines@) == bullets(strs(e.changes@)).subrange(0, k as int),
                decreases e.changes@.len() - k,
            {
                let mut l = owned("- ");
                push_str(&mut l, e.changes[k].as_str());
                let ghost before = lines@;
                lines.push(l);
                assert(strs(lines@) =~= strs(before).push(l@));
                assert(strs(lines@) =~= bullets(strs(e.changes@)).subrange(0, k + 1));
                k = k + 1;
            }
            assert(bullets(strs(e.changes@)).subrange(0, e.changes@.len() as int) =~= bullets(strs(e.changes@)));
            let content = join(&lines, "\n");
            let mut title = owned("[");
            push_str(&mut title, e.version.as_str());
            push_str(&mut title, "] - ");
            push_str(&mut title, e.date.as_str());
            proof {
                reveal_strlit("\n");
                assert("\n"@ =~= seq!['\n']);
            }
            let sec = DocSection::new(title.as_str(), content.as_str(), 2);
            let ghost before = doc.sections@;
            doc.add_section(sec);
            assert(sections_view(doc.sections@) =~= sections_view(before).push(section_view(sec)));
            assert(section_view(sec) == entry_section(self.entries@[i as int]));
            assert(sections_view(doc.sections@) =~= seq![("Changelog"@, "Historial de cambios."@, 1u8)]
                + self.entries@.map_values(|e: ChangelogEntry| entry_section(e)).subrange(0, i + 1));
            i = i + 1;
        }
        assert(self.entries@.map_values(|e: ChangelogEntry| entry_section(e)).subrange(0, self.entries@.len() as int)
            =~= self.entries@.map_values(|e: ChangelogEntry| entry_section(e)));
        doc
    }
}

impl Default for ChangelogGenerator {
    fn default() -> (g: ChangelogGenerator)
        ensures
            g.entries@.len() == 0,
    {
        ChangelogGenerator::new()
    }
}

} // verus!
