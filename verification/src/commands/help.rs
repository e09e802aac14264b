//! Extended help.

use vstd::prelude::*;
use crate::text::owned;

verus! {

/// A help section.
#[derive(Debug, Clone)]
pub struct HelpSection {
    pub title: String,
    pub content: String,
}

impl HelpSection {
    pub fn new(title: &str, content: &str) -> (s: HelpSection)
        ensures
            s.title@ == title@,
            s.content@ == content@,
    {
        HelpSection { title: owned(title), content: owned(content) }
    }
}

/// The help on a topic.
#[derive(Debug, Clone)]
pub struct HelpResult {
    pub topic: String,
    pub sections: Vec<HelpSection>,
}

impl HelpResult {
    pub fn new(topic: &str) -> (r: HelpResult)
        ensures
            r.topic@ == topic@,
            r.sections@.len() == 0,
    {
        HelpResult { topic: owned(topic), sections: Vec::new() }
    }

    pub fn add_section(&mut self, section: HelpSection)
        ensures
            final(self).topic == old(self).topic,
            final(self).sections@ == old(self).sections@.push(section),
    {
        self.sections.push(section);
    }
}

/// Options of the help command.
#[derive(Debug, Clone)]
pub struct HelpCommand {
    pub topic: Option<String>,
    pub list: bool,
}

/// The topics help is available on.
pub open spec fn help_topics() -> Seq<Seq<char>> {
    seq!["general"@, "verify"@, "stats"@, "search"@, "deps"@, "tree"@, "lint"@, "health"@,
        "coverage"@, "export"@, "compress"@]
}

impl HelpCommand {
    /// The help on the topic asked for (`general` by default): a description
    /// and the usage line.
    pub fn run(&self) -> (r: HelpResult)
        ensures
            r.topic@ == match self.topic { Some(t) => t@, None => "general"@ },
            r.sections@.len() == 2,
            r.sections@[0].title@ == "Descripción"@,
            r.sections@[0].content@ == "oc_diagdoc - Sistema de diagnóstico de documentación"@,
            r.sections@[1].title@ == "Uso"@,
            r.sections@[1].content@ == "oc_diagdoc <comando> [opciones]"@,
    {
        let topic = match &self.topic {
            Some(t) => t.as_str(),
            None => "general",
        };
        let mut result = HelpResult::new(topic);
        result.add_section(HelpSection::new("Descripción", "oc_diagdoc - Sistema de diagnóstico de documentación"));
        result.add_section(HelpSection::new("Uso", "oc_diagdoc <comando> [opciones]"));
        result
    }

    /// The topics help is available on.
    pub fn available_topics() -> (r: Vec<&'static str>)
        ensures
            r@.map_values(|s: &'static str| s@) == help_topics(),
    {
        let r = vec!["general", "verify", "stats", "search", "deps", "tree", "lint", "health",
            "coverage", "export", "compress"];
        assert(r@.map_values(|s: &'static str| s@) =~= help_topics());
        r
    }
}

} // verus!
