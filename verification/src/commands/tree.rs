//! The document hierarchy drawn as a tree.

use vstd::prelude::*;
use crate::order::{lemma_sorted_of, sort_strings, sorted_of};
use crate::patterns::{group, spec_group, RE_PARENT_ID, RE_TITLE};
use crate::text::{clone_strings, 
    chars_of, concat2, decimal, owned, push_char, push_str, spec_decimal, spec_starts_with, spec_ends_with,
    spec_trim, spec_words, str_eq, starts_with, ends_with, string_of, strs, trim, words,
};

verus! {

/// A node of the drawn tree.
#[derive(Debug, Clone)]
pub struct TreeDisplayNode {
    pub id: String,
    pub title: String,
    pub depth: usize,
    pub is_last: bool,
    pub ancestors_are_last: Vec<bool>,
    pub has_children: bool,
    pub status_emoji: String,
    pub word_count: usize,
    pub link_count: usize,
    pub is_orphan: bool,
    pub doc_type: String,
    pub children_count: usize,
    pub parent_id: Option<String>,
}

/// The guides drawn for the ancestors: blank under a last child, a
/// vertical bar otherwise.
pub open spec fn ancestor_guides(anc: Seq<bool>) -> Seq<char>
    decreases anc.len(),
{
    if anc.len() == 0 {
        Seq::empty()
    } else {
        ancestor_guides(anc.drop_last()) + if anc.last() { "    "@ } else { "│   "@ }
    }
}

/// `n` blank guides.
pub open spec fn blank_guides(n: nat) -> Seq<char>
    decreases n,
{
    if n == 0 { Seq::empty() } else { blank_guides((n - 1) as nat) + "    "@ }
}

/// The tree prefix of a node: nothing at depth 0; otherwise one guide per
/// level above it (from the ancestors as far as they are known, blank
/// beyond), then the connector.
pub open spec fn spec_prefix(depth: nat, anc: Seq<bool>, is_last: bool) -> Seq<char> {
    if depth == 0 {
        Seq::empty()
    } else {
        let m: nat = if (depth - 1) as nat <= anc.len() { (depth - 1) as nat } else { anc.len() };
        ancestor_guides(anc.subrange(0, m as int)) + blank_guides((depth - 1 - m) as nat)
            + if is_last { "└── "@ } else { "├── "@ }
    }
}

/// The line of a node: `<prefix><emoji> <title> (<id>)`.
pub open spec fn spec_render(n: TreeDisplayNode) -> Seq<char> {
    spec_prefix(n.depth as nat, n.ancestors_are_last@, n.is_last) + n.status_emoji@ + " "@ + n.title@ + " ("@ + n.id@ + ")"@
}

/// The color of a kind of document.
pub open spec fn type_color(t: Seq<char>) -> Seq<char> {
    if t == "master"@ { "\x1b[1;35m"@ } else if t == "module_root"@ { "\x1b[1;36m"@ } else if t == "branch"@ { "\x1b[1;33m"@ } else { "\x1b[0m"@ }
}

/// The colored line of a node.
pub open spec fn spec_render_colored(n: TreeDisplayNode) -> Seq<char> {
    spec_prefix(n.depth as nat, n.ancestors_are_last@, n.is_last) + type_color(n.doc_type@) + n.status_emoji@ + "\x1b[0m"@
        + " "@ + n.title@ + " ("@ + n.id@ + ")"@ + if n.is_orphan { " ⚠️ HUÉRFANO"@ } else { Seq::empty() }
}

/// The line of a node with its word and link counts.
pub open spec fn spec_render_with_stats(n: TreeDisplayNode) -> Seq<char> {
    spec_prefix(n.depth as nat, n.ancestors_are_last@, n.is_last) + n.status_emoji@ + " "@ + n.title@ + " ("@ + n.id@ + ") ["@
        + spec_decimal(n.word_count as nat) + " words, "@ + spec_decimal(n.link_count as nat) + " links]"@
        + if n.is_orphan { " ⚠️"@ } else { Seq::empty() }
}

/// The guides of the ancestors.
fn ancestor_guides_exec(anc: &Vec<bool>, m: usize) -> (s: String)
    requires
        m <= anc@.len(),
    ensures
        s@ == ancestor_guides(anc@.subrange(0, m as int)),
{
    let mut s = String::new();
    let mut i: usize = 0;
    assert(anc@.subrange(0, 0) =~= Seq::<bool>::empty());
    while i < m
        invariant
            i <= m,
            m <= anc@.len(),
            s@ == ancestor_guides(anc@.subrange(0, i as int)),
        decreases m - i,
    {
        assert(anc@.subrange(0, i + 1).drop_last() =~= anc@.subrange(0, i as int));
        if anc[i] {
            push_str(&mut s, "    ");
        } else {
            push_str(&mut s, "│   ");
        }
        i = i + 1;
    }
    s
}

impl TreeDisplayNode {
    /// A leaf node with a document emoji and no ancestors.
    pub fn new(id: &str, title: &str, depth: usize) -> (n: TreeDisplayNode)
        ensures
            n.id@ == id@,
            n.title@ == title@,
            n.depth == depth,
            !n.is_last,
            n.ancestors_are_last@.len() == 0,
            !n.has_children,
            n.status_emoji@ == "📄"@,
            n.word_count == 0,
            n.link_count == 0,
            !n.is_orphan,
            n.doc_type@ == "leaf"@,
            n.children_count == 0,
            n.parent_id is None,
    {
        TreeDisplayNode {
            id: owned(id),
            title: owned(title),
            depth,
            is_last: false,
            ancestors_are_last: Vec::new(),
            has_children: false,
            status_emoji: owned("📄"),
            word_count: 0,
            link_count: 0,
            is_orphan: false,
            doc_type: owned("leaf"),
            children_count: 0,
            parent_id: None,
        }
    }

    /// The tree prefix of the node (see [`spec_prefix`]).
    pub fn prefix(&self) -> (s: String)
        ensures
            s@ == spec_prefix(self.depth as nat, self.ancestors_are_last@, self.is_last),
    {
        if self.depth == 0 {
            return String::new();
        }
        let up = self.depth - 1;
        let m = if up <= self.ancestors_are_last.len() { up } else { self.ancestors_are_last.len() };
        let mut s = ancestor_guides_exec(&self.ancestors_are_last, m);
        let ghost g = s@;
        let mut k: usize = 0;
        while k < up - m
            invariant
                k <= up - m,
                m <= up,
                s@ == g + blank_guides(k as nat),
            decreases up - m - k,
        {
            push_str(&mut s, "    ");
            k = k + 1;
        }
        if self.is_last {
            push_str(&mut s, "└── ");
        } else {
            push_str(&mut s, "├── ");
        }
        s
    }

    /// The line of the node.
    pub fn render(&self) -> (s: String)
        ensures
            s@ == spec_render(*self),
    {
        let mut s = self.prefix();
        push_str(&mut s, self.status_emoji.as_str());
        push_str(&mut s, " ");
        push_str(&mut s, self.title.as_str());
        push_str(&mut s, " (");
        push_str(&mut s, self.id.as_str());
        push_str(&mut s, ")");
        s
    }

    /// The line of the node, colored by its kind.
    pub fn render_colored(&self) -> (s: String)
        ensures
            s@ == spec_render_colored(*self),
    {
        let color = if str_eq(self.doc_type.as_str(), "master") {
            "\x1b[1;35m"
        } else if str_eq(self.doc_type.as_str(), "module_root") {
            "\x1b[1;36m"
        } else if str_eq(self.doc_type.as_str(), "branch") {
            "\x1b[1;33m"
        } else {
            "\x1b[0m"
        };
        let mut s = self.prefix();
        push_str(&mut s, color);
        push_str(&mut s, self.status_emoji.as_str());
        push_str(&mut s, "\x1b[0m");
        push_str(&mut s, " ");
        push_str(&mut s, self.title.as_str());
        push_str(&mut s, " (");
        push_str(&mut s, self.id.as_str());
        push_str(&mut s, ")");
        if self.is_orphan {
            push_str(&mut s, " ⚠️ HUÉRFANO");
        } else {
            assert(s@ + Seq::<char>::empty() =~= s@);
        }
        s
    }

    /// The line of the node with its counts.
    pub fn render_with_stats(&self) -> (s: String)
        ensures
            s@ == spec_render_with_stats(*self),
    {
        let mut s = self.prefix();
        push_str(&mut s, self.status_emoji.as_str());
        push_str(&mut s, " ");
        push_str(&mut s, self.title.as_str());
        push_str(&mut s, " (");
        push_str(&mut s, self.id.as_str());
        push_str(&mut s, ") [");
        push_str(&mut s, decimal(self.word_count).as_str());
        push_str(&mut s, " words, ");
        push_str(&mut s, decimal(self.link_count).as_str());
        push_str(&mut s, " links]");
        if self.is_orphan {
            push_str(&mut s, " ⚠️");
        } else {
            assert(s@ + Seq::<char>::empty() =~= s@);
        }
        s
    }
}

/// The drawn tree with its totals.
#[derive(Debug, Clone)]
pub struct TreeResult {
    pub nodes: Vec<TreeDisplayNode>,
    pub total_nodes: usize,
    pub max_depth: usize,
    pub orphans_count: usize,
    pub total_words: usize,
}

/// The line of a node in one of the three styles (plain, colored, with
/// counts).
pub open spec fn node_line(style: u8, n: TreeDisplayNode) -> Seq<char> {
    if style == 1 { spec_render_colored(n) } else if style == 2 { spec_render_with_stats(n) } else { spec_render(n) }
}

/// The lines of the nodes, each followed by a line break.
pub open spec fn node_lines(style: u8, ns: Seq<TreeDisplayNode>) -> Seq<char>
    decreases ns.len(),
{
    if ns.len() == 0 { Seq::empty() } else { node_lines(style, ns.drop_last()) + node_line(style, ns.last()) + "\n"@ }
}

/// `s` with every double quote escaped by a backslash.
pub open spec fn escape_quotes(s: Seq<char>) -> Seq<char>
    decreases s.len(),
{
    if s.len() == 0 {
        Seq::empty()
    } else {
        escape_quotes(s.drop_last()) + if s.last() == '"' { seq!['\\', '"'] } else { seq![s.last()] }
    }
}

/// Text of a boolean.
pub open spec fn bool_text(b: bool) -> Seq<char> {
    if b { "true"@ } else { "false"@ }
}

/// The JSON object of a node.
pub open spec fn node_json(n: TreeDisplayNode) -> Seq<char> {
    "    {\n      \"id\": \""@ + escape_quotes(n.id@) + "\",\n      \"title\": \""@ + escape_quotes(n.title@)
        + "\",\n      \"depth\": "@ + spec_decimal(n.depth as nat) + ",\n      \"doc_type\": \""@ + n.doc_type@
        + "\",\n      \"parent_id\": "@ + (match n.parent_id { Some(p) => "\""@ + p@ + "\""@, None => "null"@ })
        + ",\n      \"children_count\": "@ + spec_decimal(n.children_count as nat)
        + ",\n      \"word_count\": "@ + spec_decimal(n.word_count as nat)
        + ",\n      \"is_orphan\": "@ + bool_text(n.is_orphan) + "\n    }"@
}

/// The JSON objects of the nodes, separated by `,` and a line break.
pub open spec fn nodes_json(ns: Seq<TreeDisplayNode>) -> Seq<char>
    decreases ns.len(),
{
    if ns.len() == 0 {
        Seq::empty()
    } else if ns.len() == 1 {
        node_json(ns[0])
    } else {
        nodes_json(ns.drop_last()) + ",\n"@ + node_json(ns.last())
    }
}

/// A Mermaid identifier: dots, blanks and hyphens become underscores.
pub open spec fn mermaid_id(s: Seq<char>) -> Seq<char> {
    s.map_values(|c: char| if c == '.' || c == ' ' || c == '-' { '_' } else { c })
}

/// A Mermaid label: double quotes become single quotes, brackets become
/// parentheses.
pub open spec fn mermaid_label(s: Seq<char>) -> Seq<char> {
    s.map_values(|c: char| if c == '"' { '\'' } else if c == '[' { '(' } else if c == ']' { ')' } else { c })
}

/// The Mermaid node declarations.
pub open spec fn mermaid_nodes(ns: Seq<TreeDisplayNode>) -> Seq<char>
    decreases ns.len(),
{
    if ns.len() == 0 {
        Seq::empty()
    } else {
        mermaid_nodes(ns.drop_last()) + "    "@ + mermaid_id(ns.last().id@) + "[\""@ + mermaid_label(ns.last().title@) + "\"]\n"@
    }
}

/// The Mermaid edges from each parent to its child.
pub open spec fn mermaid_edges(ns: Seq<TreeDisplayNode>) -> Seq<char>
    decreases ns.len(),
{
    if ns.len() == 0 {
        Seq::empty()
    } else {
        mermaid_edges(ns.drop_last()) + match ns.last().parent_id {
            Some(p) => "    "@ + mermaid_id(p@) + " --> "@ + mermaid_id(ns.last().id@) + "\n"@,
            None => Seq::empty(),
        }
    }
}

/// The line of a node in a style.
fn node_line_exec(style: u8, n: &TreeDisplayNode) -> (s: String)
    ensures
        s@ == node_line(style, *n),
{
    if style == 1 { n.render_colored() } else if style == 2 { n.render_with_stats() } else { n.render() }
}

/// The lines of the nodes in a style.
fn node_lines_exec(style: u8, ns: &Vec<TreeDisplayNode>) -> (s: String)
    ensures
        s@ == node_lines(style, ns@),
{
    let mut s = String::new();
    let mut i: usize = 0;
    assert(ns@.subrange(0, 0) =~= Seq::<TreeDisplayNode>::empty());
    while i < ns.len()
        invariant
            i <= ns@.len(),
            s@ == node_lines(style, ns@.subrange(0, i as int)),
        decreases ns@.len() - i,
    {
        assert(ns@.subrange(0, i + 1).drop_last() =~= ns@.subrange(0, i as int));
        let l = node_line_exec(style, &ns[i]);
        push_str(&mut s, l.as_str());
        push_str(&mut s, "\n");
        i = i + 1;
    }
    assert(ns@.subrange(0, ns@.len() as int) =~= ns@);
    s
}

/// Double quotes escaped.
fn escape_quotes_exec(t: &str) -> (s: String)
    ensures
        s@ == escape_quotes(t@),
{
    let c = chars_of(t);
    let mut s = String::new();
    let mut i: usize = 0;
    assert(c@.subrange(0, 0) =~= Seq::<char>::empty());
    while i < c.len()
        invariant
            i <= c@.len(),
            c@ == t@,
            s@ == escape_quotes(c@.subrange(0, i as int)),
        decreases c@.len() - i,
    {
        assert(c@.subrange(0, i + 1).drop_last() =~= c@.subrange(0, i as int));
        if c[i] == '"' {
            push_char(&mut s, '\\');
            push_char(&mut s, '"');
        } else {
            push_char(&mut s, c[i]);
        }
        i = i + 1;
    }
    assert(c@.subrange(0, c@.len() as int) =~= c@);
    s
}

/// The JSON object of a node.
fn node_json_exec(n: &TreeDisplayNode) -> (s: String)
    ensures
        s@ == node_json(*n),
{
    let mut s = owned("    {\n      \"id\": \"");
    push_str(&mut s, escape_quotes_exec(n.id.as_str()).as_str());
    push_str(&mut s, "\",\n      \"title\": \"");
    push_str(&mut s, escape_quotes_exec(n.title.as_str()).as_str());
    push_str(&mut s, "\",\n      \"depth\": ");
    push_str(&mut s, decimal(n.depth).as_str());
    push_str(&mut s, ",\n      \"doc_type\": \"");
    push_str(&mut s, n.doc_type.as_str());
    push_str(&mut s, "\",\n      \"parent_id\": ");
    match &n.parent_id {
        Some(p) => {
            push_str(&mut s, "\"");
            push_str(&mut s, p.as_str());
            push_str(&mut s, "\"");
        },
        None => {
            push_str(&mut s, "null");
        },
    }
    push_str(&mut s, ",\n      \"children_count\": ");
    push_str(&mut s, decimal(n.children_count).as_str());
    push_str(&mut s, ",\n      \"word_count\": ");
    push_str(&mut s, decimal(n.word_count).as_str());
    push_str(&mut s, ",\n      \"is_orphan\": ");
    push_str(&mut s, if n.is_orphan { "true" } else { "false" });
    push_str(&mut s, "\n    }");
    s
}

/// A Mermaid identifier.
fn mermaid_id_exec(t: &str) -> (s: String)
    ensures
        s@ == mermaid_id(t@),
{
    let c = chars_of(t);
    let mut s = String::new();
    let mut i: usize = 0;
    while i < c.len()
        invariant
            i <= c@.len(),
            c@ == t@,
            s@ =~= mermaid_id(c@.subrange(0, i as int)),
        decreases c@.len() - i,
    {
        let x = c[i];
        push_char(&mut s, if x == '.' || x == ' ' || x == '-' { '_' } else { x });
        i = i + 1;
    }
    assert(c@.subrange(0, c@.len() as int) =~= c@);
    s
}

/// A Mermaid label.
fn mermaid_label_exec(t: &str) -> (s: String)
    ensures
        s@ == mermaid_label(t@),
{
    let c = chars_of(t);
    let mut s = String::new();
    let mut i: usize = 0;
    while i < c.len()
        invariant
            i <= c@.len(),
            c@ == t@,
            s@ =~= mermaid_label(c@.subrange(0, i as int)),
        decreases c@.len() - i,
    {
        let x = c[i];
        push_char(&mut s, if x == '"' { '\'' } else if x == '[' { '(' } else if x == ']' { ')' } else { x });
        i = i + 1;
    }
    assert(c@.subrange(0, c@.len() as int) =~= c@);
    s
}

impl TreeResult {
    /// An empty tree.
    pub fn new() -> (r: TreeResult)
        ensures
            r.nodes@.len() == 0,
            r.total_nodes == 0,
            r.max_depth == 0,
            r.orphans_count == 0,
            r.total_words == 0,
    {
        TreeResult { nodes: Vec::new(), total_nodes: 0, max_depth: 0, orphans_count: 0, total_words: 0 }
    }

    /// The tree, one line per node, then the totals.
    pub fn render(&self) -> (s: String)
        ensures
            s@ == node_lines(0, self.nodes@) + "\n📊 "@ + spec_decimal(self.total_nodes as nat)
                + " documentos, profundidad máxima: "@ + spec_decimal(self.max_depth as nat) + "\n"@,
    {
        let mut s = node_lines_exec(0, &self.nodes);
        push_str(&mut s, "\n📊 ");
        push_str(&mut s, decimal(self.total_nodes).as_str());
        push_str(&mut s, " documentos, profundidad máxima: ");
        push_str(&mut s, decimal(self.max_depth).as_str());
        push_str(&mut s, "\n");
        s
    }

    /// The tree colored by kind, then the totals.
    pub fn render_colored(&self) -> (s: String)
        ensures
            s@ == node_lines(1, self.nodes@) + "\n📊 "@ + spec_decimal(self.total_nodes as nat) + " docs | 🌳 depth "@
                + spec_decimal(self.max_depth as nat) + " | ⚠️ "@ + spec_decimal(self.orphans_count as nat) + " huérfanos\n"@,
    {
        let mut s = node_lines_exec(1, &self.nodes);
        push_str(&mut s, "\n📊 ");
        push_str(&mut s, decimal(self.total_nodes).as_str());
        push_str(&mut s, " docs | 🌳 depth ");
        push_str(&mut s, decimal(self.max_depth).as_str());
        push_str(&mut s, " | ⚠️ ");
        push_str(&mut s, decimal(self.orphans_count).as_str());
        push_str(&mut s, " huérfanos\n");
        s
    }

    /// The tree with counts per node, then the totals.
    pub fn render_with_stats(&self) -> (s: String)
        ensures
            s@ == node_lines(2, self.nodes@) + "\n📊 "@ + spec_decimal(self.total_nodes as nat) + " docs | "@
                + spec_decimal(self.total_words as nat) + " words | depth "@ + spec_decimal(self.max_depth as nat)
                + " | ⚠️ "@ + spec_decimal(self.orphans_count as nat) + " huérfanos\n"@,
    {
        let mut s = node_lines_exec(2, &self.nodes);
        push_str(&mut s, "\n📊 ");
        push_str(&mut s, decimal(self.total_nodes).as_str());
        push_str(&mut s, " docs | ");
        push_str(&mut s, decimal(self.total_words).as_str());
        push_str(&mut s, " words | depth ");
        push_str(&mut s, decimal(self.max_depth).as_str());
        push_str(&mut s, " | ⚠️ ");
        push_str(&mut s, decimal(self.orphans_count).as_str());
        push_str(&mut s, " huérfanos\n");
        s
    }

    /// The tree as a JSON document.
    pub fn render_json(&self) -> (s: String)
        ensures
            s@ == "{\n  \"total_nodes\": "@ + spec_decimal(self.total_nodes as nat) + ",\n  \"max_depth\": "@
                + spec_decimal(self.max_depth as nat) + ",\n  \"orphans_count\": "@ + spec_decimal(self.orphans_count as nat)
                + ",\n  \"total_words\": "@ + spec_decimal(self.total_words as nat) + ",\n  \"nodes\": [\n"@
                + nodes_json(self.nodes@) + "\n  ]\n}"@,
    {
        let mut body = String::new();
        let mut i: usize = 0;
        assert(self.nodes@.subrange(0, 0) =~= Seq::<TreeDisplayNode>::empty());
        while i < self.nodes.len()
            invariant
                i <= self.nodes@.len(),
                body@ == nodes_json(self.nodes@.subrange(0, i as int)),
            decreases self.nodes@.len() - i,
        {
            let ghost sub = self.nodes@.subrange(0, i + 1);
            assert(sub.drop_last() =~= self.nodes@.subrange(0, i as int));
            if i > 0 {
                push_str(&mut body, ",\n");
            } else {
                assert(body@ == Seq::<char>::empty());
            }
            let j = node_json_exec(&self.nodes[i]);
            push_str(&mut body, j.as_str());
            proof {
                if i == 0 {
                    assert(body@ =~= node_json(sub[0]));
                }
            }
            i = i + 1;
        }
        assert(self.nodes@.subrange(0, self.nodes@.len() as int) =~= self.nodes@);
        let mut s = owned("{\n  \"total_nodes\": ");
        push_str(&mut s, decimal(self.total_nodes).as_str());
        push_str(&mut s, ",\n  \"max_depth\": ");
        push_str(&mut s, decimal(self.max_depth).as_str());
        push_str(&mut s, ",\n  \"orphans_count\": ");
        push_str(&mut s, decimal(self.orphans_count).as_str());
        push_str(&mut s, ",\n  \"total_words\": ");
        push_str(&mut s, decimal(self.total_words).as_str());
        push_str(&mut s, ",\n  \"nodes\": [\n");
        push_str(&mut s, body.as_str());
        push_str(&mut s, "\n  ]\n}");
        s
    }

    /// The tree as a Mermaid diagram: one node per document, then an edge
    /// from each named parent.
    pub fn render_mermaid(&self) -> (s: String)
        ensures
            s@ == "graph TD\n"@ + mermaid_nodes(self.nodes@) + "\n"@ + mermaid_edges(self.nodes@),
    {
        let mut a = String::new();
        let mut b = String::new();
        let mut i: usize = 0;
        assert(self.nodes@.subrange(0, 0) =~= Seq::<TreeDisplayNode>::empty());
        while i < self.nodes.len()
            invariant
                i <= self.nodes@.len(),
                a@ == mermaid_nodes(self.nodes@.subrange(0, i as int)),
                b@ == mermaid_edges(self.nodes@.subrange(0, i as int)),
            decreases self.nodes@.len() - i,
        {
            let ghost sub = self.nodes@.subrange(0, i + 1);
            assert(sub.drop_last() =~= self.nodes@.subrange(0, i as int));
            let n = &self.nodes[i];
            push_str(&mut a, "    ");
            push_str(&mut a, mermaid_id_exec(n.id.as_str()).as_str());
            push_str(&mut a, "[\"");
            push_str(&mut a, mermaid_label_exec(n.title.as_str()).as_str());
            push_str(&mut a, "\"]\n");
            match &n.parent_id {
                Some(p) => {
                    push_str(&mut b, "    ");
                    push_str(&mut b, mermaid_id_exec(p.as_str()).as_str());
                    push_str(&mut b, " --> ");
                    push_str(&mut b, mermaid_id_exec(n.id.as_str()).as_str());
                    push_str(&mut b, "\n");
                },
                None => {
                    assert(b@ + Seq::<char>::empty() =~= b@);
                },
            }
            i = i + 1;
        }
        assert(self.nodes@.subrange(0, self.nodes@.len() as int) =~= self.nodes@);
        let mut s = owned("graph TD\n");
        push_str(&mut s, a.as_str());
        push_str(&mut s, "\n");
        push_str(&mut s, b.as_str());
        s
    }
}

impl Default for TreeResult {
    fn default() -> (r: TreeResult)
        ensures
            r.nodes@.len() == 0,
            r.total_nodes == 0,
            r.max_depth == 0,
            r.orphans_count == 0,
            r.total_words == 0,
    {
        TreeResult::new()
    }
}

// ─────────────────────────────────────────────────────────────────────────
// Building the tree
// ─────────────────────────────────────────────────────────────────────────

/// Options of the tree command.
#[derive(Debug, Clone)]
pub struct TreeCommand {
    pub path: Option<String>,
    pub module: Option<String>,
    pub depth: Option<usize>,
    pub errors_only: bool,
    pub words: bool,
    pub color: bool,
    pub stats: bool,
    pub doc_type: Option<String>,
    pub orphans_only: bool,
    pub root: Option<String>,
    pub show_status: bool,
    pub format: String,
    pub output: Option<String>,
    pub show_type: bool,
    pub show_children: bool,
}

/// The leading digits and dots of an id.
pub open spec fn numeric_prefix(s: Seq<char>) -> Seq<char>
    decreases s.len(),
{
    if s.len() > 0 && (('0' <= s[0] && s[0] <= '9') || s[0] == '.') {
        seq![s[0]] + numeric_prefix(s.drop_first())
    } else {
        Seq::empty()
    }
}

/// The dots of a text.
pub open spec fn count_dots(s: Seq<char>) -> nat
    decreases s.len(),
{
    if s.len() == 0 { 0 } else { count_dots(s.drop_last()) + if s.last() == '.' { 1nat } else { 0nat } }
}

/// The depth an id gives: the dots among its leading digits and dots.
pub open spec fn depth_of_id(id: Seq<char>) -> nat {
    count_dots(numeric_prefix(id))
}

/// The depth of an id below a root id (0 above it), or its own depth.
pub open spec fn depth_relative(id: Seq<char>, root: Option<Seq<char>>) -> nat {
    match root {
        Some(r) => if depth_of_id(id) >= depth_of_id(r) { (depth_of_id(id) - depth_of_id(r)) as nat } else { 0 },
        None => depth_of_id(id),
    }
}

/// A document of the tree: (id, title, parent, words).
pub type TreeDoc = (Seq<char>, Seq<char>, Option<Seq<char>>, nat);

/// The position of the first document with the id.
pub open spec fn index_of_id(t: Seq<TreeDoc>, id: Seq<char>) -> Option<int>
    decreases t.len(),
{
    if t.len() == 0 {
        None
    } else {
        match index_of_id(t.drop_last(), id) {
            Some(j) => Some(j),
            None => if t.last().0 == id { Some(t.len() - 1) } else { None },
        }
    }
}

/// The table with a document put in: replacing the one with its id, or
/// added at the end.
pub open spec fn table_put(t: Seq<TreeDoc>, d: TreeDoc) -> Seq<TreeDoc> {
    match index_of_id(t, d.0) {
        Some(j) => t.update(j, d),
        None => t.push(d),
    }
}

/// Children by parent id, each list in order of reading.
pub type KidsEntry = (Seq<char>, Seq<Seq<char>>);

/// The position of the first entry with the key.
pub open spec fn kids_index(k: Seq<KidsEntry>, key: Seq<char>) -> Option<int>
    decreases k.len(),
{
    if k.len() == 0 {
        None
    } else {
        match kids_index(k.drop_last(), key) {
            Some(j) => Some(j),
            None => if k.last().0 == key { Some(k.len() - 1) } else { None },
        }
    }
}

/// The children table with one more child of `key`.
pub open spec fn kids_add(k: Seq<KidsEntry>, key: Seq<char>, id: Seq<char>) -> Seq<KidsEntry> {
    match kids_index(k, key) {
        Some(j) => k.update(j, (key, k[j].1.push(id))),
        None => k.push((key, seq![id])),
    }
}

/// A file enters the tree when its id starts with the module filter and
/// matches the root filter (starts with it, with it followed by a dot, or
/// equals it).
pub open spec fn tree_keeps(module: Option<Seq<char>>, root: Option<Seq<char>>, id: Seq<char>) -> bool {
    &&& match module { Some(m) => spec_starts_with(id, m), None => true }
    &&& match root {
        Some(r) => {
            let nf = if spec_ends_with(r, "."@) { r } else { r + "."@ };
            spec_starts_with(id, r) || spec_starts_with(id, nf) || id == r
        },
        None => true,
    }
}

/// Group 1 of the leftmost match, trimmed.
pub open spec fn trimmed_group1(p: Seq<char>, t: Seq<char>) -> Option<Seq<char>> {
    match spec_group(p, t, 1) {
        Some(g) => Some(spec_trim(g)),
        None => None,
    }
}

/// What a document contributes: its title (the id without one), its
/// parent and its words.
pub open spec fn parse_doc(id: Seq<char>, c: Seq<char>) -> TreeDoc {
    (id, match trimmed_group1(RE_TITLE@, c) { Some(t) => t, None => id }, spec_group(RE_PARENT_ID@, c, 1), spec_words(c).len())
}

/// The documents and the children table, over the readable files that
/// the filters keep, in order.
pub open spec fn tree_tables(module: Option<Seq<char>>, root: Option<Seq<char>>, fs: Seq<(Seq<char>, Option<Seq<char>>)>)
    -> (Seq<TreeDoc>, Seq<KidsEntry>)
    decreases fs.len(),
{
    if fs.len() == 0 {
        (Seq::empty(), Seq::empty())
    } else {
        let p = tree_tables(module, root, fs.drop_last());
        let f = fs.last();
        match f.1 {
            Some(c) => if tree_keeps(module, root, f.0) {
                let d = parse_doc(f.0, c);
                (table_put(p.0, d), match d.2 { Some(pid) => kids_add(p.1, pid, f.0), None => p.1 })
            } else {
                p
            },
            None => p,
        }
    }
}

/// The ids of the documents of `t` without a parent among `all`.
pub open spec fn root_candidates(t: Seq<TreeDoc>, all: Seq<TreeDoc>) -> Seq<Seq<char>>
    decreases t.len(),
{
    if t.len() == 0 {
        Seq::empty()
    } else {
        let p = root_candidates(t.drop_last(), all);
        match t.last().2 {
            Some(pid) => if index_of_id(all, pid) is None { p.push(t.last().0) } else { p },
            None => p.push(t.last().0),
        }
    }
}

/// A document of the table, or the id alone.
pub open spec fn doc_of(t: Seq<TreeDoc>, id: Seq<char>) -> TreeDoc {
    match index_of_id(t, id) {
        Some(j) => t[j],
        None => (id, id, None, 0),
    }
}

/// The children of an id, if it has an entry.
pub open spec fn kids_of(k: Seq<KidsEntry>, id: Seq<char>) -> Option<Seq<Seq<char>>> {
    match kids_index(k, id) {
        Some(j) => Some(k[j].1),
        None => None,
    }
}

/// The kind of a document in the tree.
pub open spec fn doc_kind(depth: nat, id: Seq<char>, has_children: bool) -> Seq<char> {
    if depth == 0 && spec_starts_with(id, "0."@) {
        "master"@
    } else if has_children && depth <= 1 {
        "module_root"@
    } else if has_children {
        "branch"@
    } else {
        "leaf"@
    }
}

/// A node as the tree builds it.
pub struct NodeView {
    pub id: Seq<char>,
    pub title: Seq<char>,
    pub depth: nat,
    pub is_last: bool,
    pub anc: Seq<bool>,
    pub has_children: bool,
    pub emoji: Seq<char>,
    pub words: nat,
    pub links: nat,
    pub orphan: bool,
    pub doc_type: Seq<char>,
    pub children: nat,
    pub parent: Option<Seq<char>>,
}

/// The view of a drawn node.
pub open spec fn node_view(n: TreeDisplayNode) -> NodeView {
    NodeView {
        id: n.id@,
        title: n.title@,
        depth: n.depth as nat,
        is_last: n.is_last,
        anc: n.ancestors_are_last@,
        has_children: n.has_children,
        emoji: n.status_emoji@,
        words: n.word_count as nat,
        links: n.link_count as nat,
        orphan: n.is_orphan,
        doc_type: n.doc_type@,
        children: n.children_count as nat,
        parent: match n.parent_id { Some(p) => Some(p@), None => None },
    }
}

/// The views of drawn nodes.
pub open spec fn nodes_view(v: Seq<TreeDisplayNode>) -> Seq<NodeView> {
    v.map_values(|n: TreeDisplayNode| node_view(n))
}

/// The node of `id` at `depth`: its depth is relative to the root filter
/// when there is one; an orphan names a parent that is no document; the
/// emoji tells orphans, top nodes and nodes with children apart; the
/// title carries the words, the kind and the number of children when
/// asked.
pub open spec fn make_node(cmd: TreeCommand, t: Seq<TreeDoc>, k: Seq<KidsEntry>, id: Seq<char>, depth: nat, is_last: bool, anc: Seq<bool>) -> NodeView {
    let d = doc_of(t, id);
    let hc = kids_index(k, id) is Some;
    let kind = doc_kind(depth, id, hc);
    let orphan = match d.2 { Some(p) => index_of_id(t, p) is None, None => false };
    let eff = match cmd.root { Some(r) => depth_relative(id, Some(r@)), None => depth };
    let cc: nat = match kids_of(k, id) { Some(v) => v.len(), None => 0 };
    let emoji = if orphan { "⚠️"@ } else if eff == 0 { "📁"@ } else if hc { "📂"@ } else { "📄"@ };
    let t1 = if cmd.words { d.1 + " ("@ + spec_decimal(d.3) + " words)"@ } else { d.1 };
    let t2 = if cmd.show_type { t1 + " ["@ + kind + "]"@ } else { t1 };
    let t3 = if cmd.show_children && cc > 0 { t2 + " ("@ + spec_decimal(cc) + ")"@ } else { t2 };
    NodeView {
        id,
        title: t3,
        depth: eff,
        is_last,
        anc,
        has_children: hc,
        emoji,
        words: d.3,
        links: 0,
        orphan,
        doc_type: kind,
        children: cc,
        parent: d.2,
    }
}

/// The nodes of the subtree of `id`, depth first, children in order of
/// their ids: nothing below the depth limit; a node of another kind than
/// the kind filter ends its subtree; with the orphan filter, only orphans
/// are drawn, their descendants still visited. The descent stops after
/// `fuel` levels.
pub open spec fn tree_from(cmd: TreeCommand, t: Seq<TreeDoc>, k: Seq<KidsEntry>, id: Seq<char>, depth: nat, is_last: bool, anc: Seq<bool>, fuel: nat) -> Seq<NodeView>
    decreases fuel, 0nat,
{
    if fuel == 0 {
        Seq::empty()
    } else if (match cmd.depth { Some(m) => depth > m, None => false }) {
        Seq::empty()
    } else {
        let n = make_node(cmd, t, k, id, depth, is_last, anc);
        let kids = match kids_of(k, id) { Some(v) => sorted_of(v), None => Seq::empty() };
        let below = kids_from(cmd, t, k, kids, kids.len(), depth + 1, anc.push(is_last), (fuel - 1) as nat);
        if (match cmd.doc_type { Some(ty) => n.doc_type != ty@, None => false }) {
            Seq::empty()
        } else if cmd.orphans_only && !n.orphan {
            below
        } else {
            seq![n] + below
        }
    }
}

/// The subtrees of the first `m` children, the last child marked as such.
pub open spec fn kids_from(cmd: TreeCommand, t: Seq<TreeDoc>, k: Seq<KidsEntry>, kids: Seq<Seq<char>>, m: nat, depth: nat, anc: Seq<bool>, fuel: nat) -> Seq<NodeView>
    decreases fuel, m + 1,
{
    if m == 0 || m > kids.len() {
        Seq::empty()
    } else {
        kids_from(cmd, t, k, kids, (m - 1) as nat, depth, anc, fuel)
            + tree_from(cmd, t, k, kids[m - 1], depth, m == kids.len(), anc, fuel)
    }
}

/// A document of the tree as held: (id, title, parent, words).
pub type DocEntry = (String, String, Option<String>, usize);

/// The view of a held document.
pub open spec fn doc_entry_view(e: DocEntry) -> TreeDoc {
    (e.0@, e.1@, match e.2 { Some(p) => Some(p@), None => None }, e.3 as nat)
}

/// The views of held documents.
pub open spec fn table_view(v: Seq<DocEntry>) -> Seq<TreeDoc> {
    v.map_values(|e: DocEntry| doc_entry_view(e))
}

/// The views of held children lists.
pub open spec fn kids_view(v: Seq<(String, Vec<String>)>) -> Seq<KidsEntry> {
    v.map_values(|e: (String, Vec<String>)| (e.0@, strs(e.1@)))
}

/// The files as (stem, content when readable).
pub open spec fn tree_files_view(v: Seq<(String, Option<String>)>) -> Seq<(Seq<char>, Option<Seq<char>>)> {
    v.map_values(|x: (String, Option<String>)| (x.0@, match x.1 { Some(c) => Some(c@), None => None }))
}

/// The view of an optional text.
pub open spec fn opt_view(o: Option<String>) -> Option<Seq<char>> {
    match o { Some(s) => Some(s@), None => None }
}

proof fn lemma_numeric_prefix(s: Seq<char>, n: int)
    requires
        0 <= n <= s.len(),
        forall|i: int| 0 <= i < n ==> ('0' <= #[trigger] s[i] && s[i] <= '9') || s[i] == '.',
        n == s.len() || !(('0' <= s[n] && s[n] <= '9') || s[n] == '.'),
    ensures
        numeric_prefix(s) == s.subrange(0, n),
    decreases n,
{
    if n == 0 {
        assert(s.subrange(0, 0) =~= Seq::<char>::empty());
    } else {
        let t = s.drop_first();
        assert forall|i: int| 0 <= i < n - 1 implies ('0' <= #[trigger] t[i] && t[i] <= '9') || t[i] == '.' by {
            assert(t[i] == s[i + 1]);
        }
        if n - 1 < t.len() {
            assert(t[n - 1] == s[n]);
        }
        lemma_numeric_prefix(t, n - 1);
        assert(s.subrange(0, n) =~= seq![s[0]] + t.subrange(0, n - 1));
    }
}

/// The depth an id gives (see [`depth_of_id`]).
fn depth_from_id(id: &str) -> (d: usize)
    ensures
        d == depth_of_id(id@),
{
    let c = chars_of(id);
    let mut n: usize = 0;
    while n < c.len() && (('0' <= c[n] && c[n] <= '9') || c[n] == '.')
        invariant
            n <= c@.len(),
            c@ == id@,
            forall|i: int| 0 <= i < n ==> ('0' <= #[trigger] c@[i] && c@[i] <= '9') || c@[i] == '.',
        decreases c@.len() - n,
    {
        n = n + 1;
    }
    proof {
        lemma_numeric_prefix(c@, n as int);
    }
    let mut d: usize = 0;
    let mut i: usize = 0;
    assert(c@.subrange(0, 0) =~= Seq::<char>::empty());
    while i < n
        invariant
            i <= n,
            n <= c@.len(),
            d == count_dots(c@.subrange(0, i as int)),
            d <= i,
        decreases n - i,
    {
        assert(c@.subrange(0, i + 1).drop_last() =~= c@.subrange(0, i as int));
        if c[i] == '.' {
            d = d + 1;
        }
        i = i + 1;
    }
    d
}

/// The depth of an id below the root filter.
fn depth_relative_to(id: &str, root: &Option<String>) -> (d: usize)
    ensures
        d == depth_relative(id@, opt_view(*root)),
{
    let a = depth_from_id(id);
    match root {
        Some(r) => {
            let b = depth_from_id(r.as_str());
            if a >= b { a - b } else { 0 }
        },
        None => a,
    }
}

/// The position of the first document with the id.
fn index_of_id_exec(t: &Vec<DocEntry>, id: &str) -> (r: Option<usize>)
    ensures
        match index_of_id(table_view(t@), id@) {
            Some(j) => r matches Some(x) && x as int == j && 0 <= j < t@.len(),
            None => r is None,
        },
{
    let ghost tv = table_view(t@);
    let mut r: Option<usize> = None;
    let mut i: usize = 0;
    while i < t.len()
        invariant
            i <= t@.len(),
            tv == table_view(t@),
            match index_of_id(tv.subrange(0, i as int), id@) {
                Some(j) => r matches Some(x) && x as int == j && 0 <= j < i,
                None => r is None,
            },
        decreases t@.len() - i,
    {
        assert(tv.subrange(0, i + 1).drop_last() =~= tv.subrange(0, i as int));
        if r.is_none() && str_eq(t[i].0.as_str(), id) {
            r = Some(i);
        }
        i = i + 1;
    }
    assert(tv.subrange(0, t@.len() as int) =~= tv);
    r
}

/// The position of the first children entry with the key.
pub(crate) fn kids_index_exec(k: &Vec<(String, Vec<String>)>, key: &str) -> (r: Option<usize>)
    ensures
        match kids_index(kids_view(k@), key@) {
            Some(j) => r matches Some(x) && x as int == j && 0 <= j < k@.len(),
            None => r is None,
        },
{
    let ghost kv = kids_view(k@);
    let mut r: Option<usize> = None;
    let mut i: usize = 0;
    while i < k.len()
        invariant
            i <= k@.len(),
            kv == kids_view(k@),
            match kids_index(kv.subrange(0, i as int), key@) {
                Some(j) => r matches Some(x) && x as int == j && 0 <= j < i,
                None => r is None,
            },
        decreases k@.len() - i,
    {
        assert(kv.subrange(0, i + 1).drop_last() =~= kv.subrange(0, i as int));
        if r.is_none() && str_eq(k[i].0.as_str(), key) {
            r = Some(i);
        }
        i = i + 1;
    }
    assert(kv.subrange(0, k@.len() as int) =~= kv);
    r
}

/// Puts a document in the table.
fn table_put_exec(t: &mut Vec<DocEntry>, d: DocEntry)
    ensures
        table_view(final(t)@) == table_put(table_view(old(t)@), doc_entry_view(d)),
{
    let ghost tv = table_view(t@);
    let ghost dv = doc_entry_view(d);
    match index_of_id_exec(t, d.0.as_str()) {
        Some(j) => {
            t.set(j, d);
            assert(table_view(t@) =~= tv.update(j as int, doc_entry_view(d)));
        },
        None => {
            t.push(d);
            assert(table_view(t@) =~= tv.push(doc_entry_view(d)));
        },
    }
}

/// Adds a child to the children table.
pub(crate) fn kids_add_exec(k: &mut Vec<(String, Vec<String>)>, key: String, id: String)
    ensures
        kids_view(final(k)@) == kids_add(kids_view(old(k)@), key@, id@),
{
    let ghost kv = kids_view(k@);
    match kids_index_exec(k, key.as_str()) {
        Some(j) => {
            let mut e = k.remove(j);
            let ghost l0 = strs(e.1@);
            e.1.push(id);
            assert(strs(e.1@) =~= l0.push(id@));
            k.insert(j, (key, e.1));
            assert(kids_view(k@) =~= kv.update(j as int, (key@, kv[j as int].1.push(id@))));
        },
        None => {
            let mut l: Vec<String> = Vec::new();
            l.push(id);
            assert(strs(l@) =~= seq![id@]);
            k.push((key, l));
            assert(kids_view(k@) =~= kv.push((key@, seq![id@])));
        },
    }
}

/// Whether a file enters the tree.
fn tree_keeps_exec(module: &Option<String>, root: &Option<String>, id: &String) -> (r: bool)
    ensures
        r == tree_keeps(opt_view(*module), opt_view(*root), id@),
{
    let c = chars_of(id.as_str());
    let m_ok = match module {
        Some(m) => starts_with(&c, &chars_of(m.as_str())),
        None => true,
    };
    let r_ok = match root {
        Some(r) => {
            let rc = chars_of(r.as_str());
            let nf = if ends_with(&rc, &chars_of(".")) { owned(r.as_str()) } else { concat2(r.as_str(), ".") };
            starts_with(&c, &rc) || starts_with(&c, &chars_of(nf.as_str())) || str_eq(id.as_str(), r.as_str())
        },
        None => true,
    };
    m_ok && r_ok
}

/// What a document contributes.
fn parse_doc_exec(id: &String, c: &String) -> (d: DocEntry)
    ensures
        doc_entry_view(d) == parse_doc(id@, c@),
{
    let title = match group(RE_TITLE, c.as_str(), 1) {
        Some(g) => string_of(&trim(&chars_of(g.as_str()))),
        None => owned(id.as_str()),
    };
    let parent = group(RE_PARENT_ID, c.as_str(), 1);
    let w = words(&chars_of(c.as_str()));
    assert(strs(w@).len() == w@.len());
    (owned(id.as_str()), title, parent, w.len())
}

/// The documents and the children table.
fn tables_exec(module: &Option<String>, root: &Option<String>, files: &Vec<(String, Option<String>)>)
    -> (r: (Vec<DocEntry>, Vec<(String, Vec<String>)>))
    ensures
        (table_view(r.0@), kids_view(r.1@)) == tree_tables(opt_view(*module), opt_view(*root), tree_files_view(files@)),
{
    let ghost fv = tree_files_view(files@);
    let mut t: Vec<DocEntry> = Vec::new();
    let mut k: Vec<(String, Vec<String>)> = Vec::new();
    let mut i: usize = 0;
    assert(table_view(t@) =~= Seq::<TreeDoc>::empty());
    assert(kids_view(k@) =~= Seq::<KidsEntry>::empty());
    while i < files.len()
        invariant
            i <= files@.len(),
            fv == tree_files_view(files@),
            (table_view(t@), kids_view(k@)) == tree_tables(opt_view(*module), opt_view(*root), fv.subrange(0, i as int)),
        decreases files@.len() - i,
    {
        let ghost sub = fv.subrange(0, i + 1);
        assert(sub.drop_last() =~= fv.subrange(0, i as int));
        assert(sub.last() == fv[i as int]);
        match &files[i].1 {
            Some(c) => {
                if tree_keeps_exec(module, root, &files[i].0) {
                    let d = parse_doc_exec(&files[i].0, c);
                    let parent = match &d.2 {
                        Some(p) => Some(owned(p.as_str())),
                        None => None,
                    };
                    table_put_exec(&mut t, d);
                    match parent {
                        Some(p) => {
                            kids_add_exec(&mut k, p, owned(files[i].0.as_str()));
                        },
                        None => {},
                    }
                }
            },
            None => {},
        }
        i = i + 1;
    }
    assert(fv.subrange(0, files@.len() as int) =~= fv);
    (t, k)
}

/// The roots, in order of their ids.
fn roots_exec(t: &Vec<DocEntry>) -> (r: Vec<String>)
    ensures
        strs(r@) == sorted_of(root_candidates(table_view(t@), table_view(t@))),
{
    let ghost tv = table_view(t@);
    let mut r: Vec<String> = Vec::new();
    let mut i: usize = 0;
    while i < t.len()
        invariant
            i <= t@.len(),
            tv == table_view(t@),
            strs(r@) == root_candidates(tv.subrange(0, i as int), tv),
        decreases t@.len() - i,
    {
        let ghost sub = tv.subrange(0, i + 1);
        assert(sub.drop_last() =~= tv.subrange(0, i as int));
        let ghost r0 = strs(r@);
        let is_root = match &t[i].2 {
            Some(p) => index_of_id_exec(t, p.as_str()).is_none(),
            None => true,
        };
        if is_root {
            r.push(owned(t[i].0.as_str()));
            assert(strs(r@) =~= r0.push(tv[i as int].0));
        }
        i = i + 1;
    }
    assert(tv.subrange(0, t@.len() as int) =~= tv);
    let ghost before = strs(r@);
    sort_strings(&mut r);
    proof {
        lemma_sorted_of(strs(r@), before);
    }
    r
}

/// A copy of the flags.
fn copy_bools(v: &Vec<bool>) -> (r: Vec<bool>)
    ensures
        r@ == v@,
{
    let mut r: Vec<bool> = Vec::new();
    let mut i: usize = 0;
    while i < v.len()
        invariant
            i <= v@.len(),
            r@ == v@.subrange(0, i as int),
        decreases v@.len() - i,
    {
        r.push(v[i]);
        assert(v@.subrange(0, i + 1) =~= v@.subrange(0, i as int).push(v@[i as int]));
        i = i + 1;
    }
    assert(v@.subrange(0, v@.len() as int) =~= v@);
    r
}

/// The largest depth among the nodes (0 without nodes).
pub open spec fn max_depth_of(ns: Seq<NodeView>) -> nat
    decreases ns.len(),
{
    if ns.len() == 0 {
        0
    } else {
        let p = max_depth_of(ns.drop_last());
        if ns.last().depth > p { ns.last().depth } else { p }
    }
}

/// The number of orphan nodes.
pub open spec fn orphans_of(ns: Seq<NodeView>) -> nat
    decreases ns.len(),
{
    if ns.len() == 0 { 0 } else { orphans_of(ns.drop_last()) + if ns.last().orphan { 1nat } else { 0nat } }
}

/// The words of the nodes.
pub open spec fn words_of(ns: Seq<NodeView>) -> nat
    decreases ns.len(),
{
    if ns.len() == 0 { 0 } else { words_of(ns.drop_last()) + ns.last().words }
}

/// `n`, or `usize::MAX` when larger.
pub open spec fn clamp(n: nat) -> nat {
    if n > usize::MAX { usize::MAX as nat } else { n }
}

impl TreeCommand {
    /// The node of `id` at `depth` (see [`make_node`]).
    fn make_node_exec(&self, t: &Vec<DocEntry>, k: &Vec<(String, Vec<String>)>, id: &String, depth: usize, is_last: bool, anc: &Vec<bool>) -> (n: TreeDisplayNode)
        ensures
            node_view(n) == make_node(*self, table_view(t@), kids_view(k@), id@, depth as nat, is_last, anc@),
    {
        let ghost tv = table_view(t@);
        let ghost kv = kids_view(k@);
        let (title, parent, words): (String, Option<String>, usize) = match index_of_id_exec(t, id.as_str()) {
            Some(j) => {
                let p = match &t[j].2 {
                    Some(x) => Some(owned(x.as_str())),
                    None => None,
                };
                (owned(t[j].1.as_str()), p, t[j].3)
            },
            None => (owned(id.as_str()), None, 0),
        };
        let (hc, cc): (bool, usize) = match kids_index_exec(k, id.as_str()) {
            Some(j) => {
                assert(kv[j as int].1.len() == k@[j as int].1@.len());
                (true, k[j].1.len())
            },
            None => (false, 0),
        };
        let idc = chars_of(id.as_str());
        let kind = if depth == 0 && starts_with(&idc, &chars_of("0.")) {
            "master"
        } else if hc && depth <= 1 {
            "module_root"
        } else if hc {
            "branch"
        } else {
            "leaf"
        };
        let orphan = match &parent {
            Some(p) => index_of_id_exec(t, p.as_str()).is_none(),
            None => false,
        };
        let eff = match &self.root {
            Some(_) => depth_relative_to(id.as_str(), &self.root),
            None => depth,
        };
        let emoji = if orphan { "⚠️" } else if eff == 0 { "📁" } else if hc { "📂" } else { "📄" };
        let mut tt = title;
        if self.words {
            push_str(&mut tt, " (");
            push_str(&mut tt, decimal(words).as_str());
            push_str(&mut tt, " words)");
        }
        if self.show_type {
            push_str(&mut tt, " [");
            push_str(&mut tt, kind);
            push_str(&mut tt, "]");
        }
        if self.show_children && cc > 0 {
            push_str(&mut tt, " (");
            push_str(&mut tt, decimal(cc).as_str());
            push_str(&mut tt, ")");
        }
        TreeDisplayNode {
            id: owned(id.as_str()),
            title: tt,
            depth: eff,
            is_last,
            ancestors_are_last: copy_bools(anc),
            has_children: hc,
            status_emoji: owned(emoji),
            word_count: words,
            link_count: 0,
            is_orphan: orphan,
            doc_type: owned(kind),
            children_count: cc,
            parent_id: parent,
        }
    }
}

impl TreeCommand {
    /// Draws the subtree of `id` (see [`tree_from`]).
    fn build_tree_recursive(&self, t: &Vec<DocEntry>, k: &Vec<(String, Vec<String>)>, id: &String, depth: usize, is_last: bool,
        anc: &mut Vec<bool>, out: &mut Vec<TreeDisplayNode>, fuel: usize)
        requires
            depth + fuel <= usize::MAX,
        ensures
            final(anc)@ == old(anc)@,
            nodes_view(final(out)@) == nodes_view(old(out)@)
                + tree_from(*self, table_view(t@), kids_view(k@), id@, depth as nat, is_last, old(anc)@, fuel as nat),
        decreases fuel, 0nat,
    {
        let ghost tv = table_view(t@);
        let ghost kv = kids_view(k@);
        let ghost o0 = nodes_view(out@);
        let ghost a0 = anc@;
        if fuel == 0 {
            assert(nodes_view(out@) =~= o0 + Seq::<NodeView>::empty());
            return;
        }
        match self.depth {
            Some(m) => {
                if depth > m {
                    assert(nodes_view(out@) =~= o0 + Seq::<NodeView>::empty());
                    return;
                }
            },
            None => {},
        }
        let node = self.make_node_exec(t, k, id, depth, is_last, anc);
        let kids: Vec<String> = match kids_index_exec(k, id.as_str()) {
            Some(j) => {
                let mut v = clone_strings(&k[j].1);
                let ghost before = strs(v@);
                sort_strings(&mut v);
                proof {
                    lemma_sorted_of(strs(v@), before);
                    assert(kv[j as int].1 == strs(k@[j as int].1@));
                }
                v
            },
            None => {
                let v: Vec<String> = Vec::new();
                assert(strs(v@) =~= Seq::<Seq<char>>::empty());
                v
            },
        };
        let skip = match &self.doc_type {
            Some(ty) => !str_eq(node.doc_type.as_str(), ty.as_str()),
            None => false,
        };
        if skip {
            assert(nodes_view(out@) =~= o0 + Seq::<NodeView>::empty());
            return;
        }
        let draw = !(self.orphans_only && !node.is_orphan);
        if draw {
            out.push(node);
            assert(nodes_view(out@) =~= o0 + seq![make_node(*self, tv, kv, id@, depth as nat, is_last, a0)]);
        } else {
            assert(nodes_view(out@) =~= o0);
        }
        let ghost mid = nodes_view(out@);
        anc.push(is_last);
        self.build_all(t, k, &kids, depth + 1, anc, out, fuel - 1);
        anc.pop();
        assert(anc@ =~= a0);
        proof {
            let below = kids_from(*self, tv, kv, strs(kids@), kids@.len() as nat, (depth + 1) as nat, a0.push(is_last), (fuel - 1) as nat);
            assert(strs(kids@).len() == kids@.len());
            if draw {
                assert(nodes_view(out@) =~= o0 + (seq![make_node(*self, tv, kv, id@, depth as nat, is_last, a0)] + below));
            } else {
                assert(nodes_view(out@) =~= o0 + below);
            }
        }
    }

    /// Draws the subtrees of the given ids in order, the last one marked
    /// as such (see [`kids_from`]).
    fn build_all(&self, t: &Vec<DocEntry>, k: &Vec<(String, Vec<String>)>, kids: &Vec<String>, depth: usize,
        anc: &mut Vec<bool>, out: &mut Vec<TreeDisplayNode>, fuel: usize)
        requires
            depth + fuel <= usize::MAX,
        ensures
            final(anc)@ == old(anc)@,
            nodes_view(final(out)@) == nodes_view(old(out)@)
                + kids_from(*self, table_view(t@), kids_view(k@), strs(kids@), kids@.len() as nat, depth as nat, old(anc)@, fuel as nat),
        decreases fuel, 1nat,
    {
        let ghost tv = table_view(t@);
        let ghost kv = kids_view(k@);
        let ghost o0 = nodes_view(out@);
        let ghost a0 = anc@;
        let ghost ks = strs(kids@);
        let mut i: usize = 0;
        assert(nodes_view(out@) =~= o0 + Seq::<NodeView>::empty());
        while i < kids.len()
            invariant
                i <= kids@.len(),
                depth + fuel <= usize::MAX,
                anc@ == a0,
                ks == strs(kids@),
                tv == table_view(t@),
                kv == kids_view(k@),
                nodes_view(out@) == o0 + kids_from(*self, tv, kv, ks, i as nat, depth as nat, a0, fuel as nat),
            decreases kids@.len() - i,
        {
            let ghost before = nodes_view(out@);
            self.build_tree_recursive(t, k, &kids[i], depth, i == kids.len() - 1, anc, out, fuel);
            proof {
                assert(ks[i as int] == kids@[i as int]@);
                assert(kids_from(*self, tv, kv, ks, (i + 1) as nat, depth as nat, a0, fuel as nat)
                    == kids_from(*self, tv, kv, ks, i as nat, depth as nat, a0, fuel as nat)
                        + tree_from(*self, tv, kv, ks[i as int], depth as nat, i + 1 == ks.len(), a0, fuel as nat));
                assert(nodes_view(out@) =~= o0 + kids_from(*self, tv, kv, ks, (i + 1) as nat, depth as nat, a0, fuel as nat));
            }
            i = i + 1;
        }
    }

    /// The tree of the documents, each given as (stem, content when it
    /// could be read): the documents the filters keep, drawn from their
    /// roots (documents without a parent among them) in order of their
    /// ids, with the totals of the drawn nodes.
    pub fn run(&self, files: &Vec<(String, Option<String>)>) -> (r: TreeResult)
        ensures
            ({
                let tk = tree_tables(opt_view(self.module), opt_view(self.root), tree_files_view(files@));
                let roots = sorted_of(root_candidates(tk.0, tk.0));
                let ns = nodes_view(r.nodes@);
                &&& ns == kids_from(*self, tk.0, tk.1, roots, roots.len(), 0, Seq::empty(), tk.0.len())
                &&& r.total_nodes == ns.len()
                &&& r.max_depth == max_depth_of(ns)
                &&& r.orphans_count == orphans_of(ns)
                &&& r.total_words == clamp(words_of(ns))
            }),
    {
        let (t, k) = tables_exec(&self.module, &self.root, files);
        let roots = roots_exec(&t);
        let mut anc: Vec<bool> = Vec::new();
        let mut out: Vec<TreeDisplayNode> = Vec::new();
        assert(nodes_view(out@) =~= Seq::<NodeView>::empty());
        self.build_all(&t, &k, &roots, 0, &mut anc, &mut out, t.len());
        assert(anc@ =~= Seq::<bool>::empty());
        assert(strs(roots@).len() == roots@.len());
        let ghost ns = nodes_view(out@);
        let mut max_depth: usize = 0;
        let mut orphans: usize = 0;
        let mut total: usize = 0;
        let mut i: usize = 0;
        assert(ns.subrange(0, 0) =~= Seq::<NodeView>::empty());
        while i < out.len()
            invariant
                i <= out@.len(),
                ns == nodes_view(out@),
                max_depth == max_depth_of(ns.subrange(0, i as int)),
                orphans == orphans_of(ns.subrange(0, i as int)),
                orphans <= i,
                total == clamp(words_of(ns.subrange(0, i as int))),
            decreases out@.len() - i,
        {
            let ghost sub = ns.subrange(0, i + 1);
            assert(sub.drop_last() =~= ns.subrange(0, i as int));
            assert(sub.last() == node_view(out@[i as int]));
            if out[i].depth > max_depth {
                max_depth = out[i].depth;
            }
            if out[i].is_orphan {
                orphans = orphans + 1;
            }
            total = total.saturating_add(out[i].word_count);
            i = i + 1;
        }
        assert(ns.subrange(0, out@.len() as int) =~= ns);
        let n = out.len();
        TreeResult { nodes: out, total_nodes: n, max_depth, orphans_count: orphans, total_words: total }
    }

    /// A small sample tree of five nodes.
    pub fn build_sample_tree() -> (r: TreeResult)
        ensures
            r.total_nodes == 5,
            r.max_depth == 2,
            r.nodes@.len() == 5,
            r.nodes@[0].id@ == "0"@ && r.nodes@[0].title@ == "Contextualizador"@ && r.nodes@[0].depth == 0,
            r.nodes@[1].id@ == "1"@ && r.nodes@[1].title@ == "Módulo Plataforma"@ && r.nodes@[1].depth == 1,
            r.nodes@[2].id@ == "1.1"@ && r.nodes@[2].title@ == "Visión"@ && r.nodes@[2].depth == 2,
            r.nodes@[3].id@ == "1.2"@ && r.nodes@[3].title@ == "Misión"@ && r.nodes@[3].depth == 2,
            r.nodes@[4].id@ == "2"@ && r.nodes@[4].title@ == "Módulo Usuarios"@ && r.nodes@[4].depth == 1,
            !r.nodes@[0].is_last && !r.nodes@[1].is_last && !r.nodes@[2].is_last && r.nodes@[3].is_last && r.nodes@[4].is_last,
            r.nodes@[0].ancestors_are_last@ == Seq::<bool>::empty(),
            r.nodes@[1].ancestors_are_last@ == seq![false],
            r.nodes@[2].ancestors_are_last@ == seq![false, false],
            r.nodes@[3].ancestors_are_last@ == seq![false, true],
            r.nodes@[4].ancestors_are_last@ == seq![true],
            forall|k: int| 0 <= k < 5 ==> (#[trigger] r.nodes@[k]).status_emoji@ == "📄"@ && r.nodes@[k].doc_type@ == "leaf"@
                && !r.nodes@[k].is_orphan && r.nodes@[k].word_count == 0 && r.nodes@[k].parent_id is None,
            r.orphans_count == 0,
            r.total_words == 0,
    {
        let mut r = TreeResult::new();
        let mut n0 = TreeDisplayNode::new("0", "Contextualizador", 0);
        n0.is_last = false;
        r.nodes.push(n0);
        let mut n1 = TreeDisplayNode::new("1", "Módulo Plataforma", 1);
        n1.is_last = false;
        n1.ancestors_are_last = vec![false];
        r.nodes.push(n1);
        let mut n2 = TreeDisplayNode::new("1.1", "Visión", 2);
        n2.is_last = false;
        n2.ancestors_are_last = vec![false, false];
        r.nodes.push(n2);
        let mut n3 = TreeDisplayNode::new("1.2", "Misión", 2);
        n3.is_last = true;
        n3.ancestors_are_last = vec![false, true];
        r.nodes.push(n3);
        let mut n4 = TreeDisplayNode::new("2", "Módulo Usuarios", 1);
        n4.is_last = true;
        n4.ancestors_are_last = vec![true];
        r.nodes.push(n4);
        r.total_nodes = 5;
        r.max_depth = 2;
        r
    }
}

/// The table has a document with the id exactly when some entry has it.
proof fn lemma_index_of_id(t: Seq<TreeDoc>, x: Seq<char>)
    ensures
        index_of_id(t, x) is Some <==> exists|k: int| 0 <= k < t.len() && (#[trigger] t[k]).0 == x,
        index_of_id(t, x) matches Some(j) ==> 0 <= j < t.len() && t[j].0 == x,
    decreases t.len(),
{
    if t.len() > 0 {
        let d = t.drop_last();
        lemma_index_of_id(d, x);
        if exists|k: int| 0 <= k < t.len() && (#[trigger] t[k]).0 == x {
            let k = choose|k: int| 0 <= k < t.len() && (#[trigger] t[k]).0 == x;
            if k < t.len() - 1 {
                assert(d[k] == t[k]);
            }
        }
        if exists|k: int| 0 <= k < d.len() && (#[trigger] d[k]).0 == x {
            let k = choose|k: int| 0 <= k < d.len() && (#[trigger] d[k]).0 == x;
            assert(t[k] == d[k]);
        }
    }
}

/// Putting a document in the table adds its id and keeps the others.
proof fn lemma_table_put_ids(t: Seq<TreeDoc>, doc: TreeDoc, x: Seq<char>)
    ensures
        (exists|k: int| 0 <= k < table_put(t, doc).len() && (#[trigger] table_put(t, doc)[k]).0 == x)
            <==> ((exists|k: int| 0 <= k < t.len() && (#[trigger] t[k]).0 == x) || x == doc.0),
{
    lemma_index_of_id(t, doc.0);
    let u = table_put(t, doc);
    match index_of_id(t, doc.0) {
        Some(j) => {
            assert(u == t.update(j, doc));
            assert forall|k: int| 0 <= k < t.len() implies (#[trigger] u[k]).0 == t[k].0 by {}
            if exists|k: int| 0 <= k < u.len() && (#[trigger] u[k]).0 == x {
                let k = choose|k: int| 0 <= k < u.len() && (#[trigger] u[k]).0 == x;
                assert(t[k].0 == x);
            }
            if exists|k: int| 0 <= k < t.len() && (#[trigger] t[k]).0 == x {
                let k = choose|k: int| 0 <= k < t.len() && (#[trigger] t[k]).0 == x;
                assert(u[k].0 == x);
            }
            if x == doc.0 {
                assert(u[j].0 == x);
            }
        },
        None => {
            assert(u == t.push(doc));
            if exists|k: int| 0 <= k < u.len() && (#[trigger] u[k]).0 == x {
                let k = choose|k: int| 0 <= k < u.len() && (#[trigger] u[k]).0 == x;
                if k < t.len() {
                    assert(t[k] == u[k]);
                }
            }
            if exists|k: int| 0 <= k < t.len() && (#[trigger] t[k]).0 == x {
                let k = choose|k: int| 0 <= k < t.len() && (#[trigger] t[k]).0 == x;
                assert(u[k] == t[k]);
            }
            if x == doc.0 {
                assert(u[t.len() as int].0 == x);
            }
        },
    }
}

/// With a root filter, a readable document enters the tree exactly when its
/// id starts with the filter (the root document itself included) and with
/// the module filter, if any: the documents of the tree are those.
pub proof fn law_tree_root_filter(module: Option<Seq<char>>, r: Seq<char>, fs: Seq<(Seq<char>, Option<Seq<char>>)>, x: Seq<char>)
    ensures
        index_of_id(tree_tables(module, Some(r), fs).0, x) is Some
            <==> exists|i: int| 0 <= i < fs.len() && (#[trigger] fs[i]).0 == x && fs[i].1 is Some
                && spec_starts_with(x, r)
                && match module { Some(m) => spec_starts_with(x, m), None => true },
    decreases fs.len(),
{
    let t = tree_tables(module, Some(r), fs).0;
    lemma_index_of_id(t, x);
    if fs.len() > 0 {
        let d = fs.drop_last();
        law_tree_root_filter(module, r, d, x);
        let p = tree_tables(module, Some(r), d).0;
        lemma_index_of_id(p, x);
        let f = fs.last();
        let ok = spec_starts_with(x, r) && match module { Some(m) => spec_starts_with(x, m), None => true };
        // The root filter keeps exactly the ids that start with it.
        let nf = if spec_ends_with(r, "."@) { r } else { r + "."@ };
        assert(tree_keeps(module, Some(r), f.0) <==> (spec_starts_with(f.0, r)
            && match module { Some(m) => spec_starts_with(f.0, m), None => true })) by {
            if spec_starts_with(f.0, nf) {
                assert(f.0.subrange(0, r.len() as int) =~= nf.subrange(0, r.len() as int));
                assert(nf.subrange(0, r.len() as int) =~= r);
            }
            if f.0 == r {
                assert(f.0.subrange(0, r.len() as int) =~= r);
            }
        }
        match f.1 {
            Some(c) => {
                if tree_keeps(module, Some(r), f.0) {
                    lemma_table_put_ids(p, parse_doc(f.0, c), x);
                }
            },
            None => {},
        }
        if exists|i: int| 0 <= i < fs.len() && (#[trigger] fs[i]).0 == x && fs[i].1 is Some && ok {
            let i = choose|i: int| 0 <= i < fs.len() && (#[trigger] fs[i]).0 == x && fs[i].1 is Some && ok;
            if i < fs.len() - 1 {
                assert(d[i] == fs[i]);
            }
        }
        if exists|i: int| 0 <= i < d.len() && (#[trigger] d[i]).0 == x && d[i].1 is Some && ok {
            let i = choose|i: int| 0 <= i < d.len() && (#[trigger] d[i]).0 == x && d[i].1 is Some && ok;
            assert(fs[i] == d[i]);
        }
    }
}

/// Where the children table has an entry for a key.
proof fn lemma_kids_index(k: Seq<KidsEntry>, key: Seq<char>)
    ensures
        kids_index(k, key) matches Some(j) ==> 0 <= j < k.len() && k[j].0 == key,
        kids_index(k, key) is None ==> forall|i: int| 0 <= i < k.len() ==> (#[trigger] k[i]).0 != key,
    decreases k.len(),
{
    if k.len() > 0 {
        let d = k.drop_last();
        lemma_kids_index(d, key);
        assert forall|i: int| 0 <= i < d.len() implies #[trigger] k[i] == d[i] by {}
    }
}

/// The entry a key finds depends on the keys alone.
proof fn lemma_kids_index_keys(k1: Seq<KidsEntry>, k2: Seq<KidsEntry>, key: Seq<char>)
    requires
        k1.len() == k2.len(),
        forall|i: int| 0 <= i < k1.len() ==> (#[trigger] k1[i]).0 == k2[i].0,
    ensures
        kids_index(k1, key) == kids_index(k2, key),
    decreases k1.len(),
{
    if k1.len() > 0 {
        let d1 = k1.drop_last();
        let d2 = k2.drop_last();
        assert forall|i: int| 0 <= i < d1.len() implies (#[trigger] d1[i]).0 == d2[i].0 by {
            assert(d1[i] == k1[i] && d2[i] == k2[i]);
        }
        lemma_kids_index_keys(d1, d2, key);
        assert(k1.last().0 == k2.last().0);
    }
}

/// Adding a child of `key` adds it to the children of `key` only.
proof fn lemma_kids_add_of(k: Seq<KidsEntry>, key: Seq<char>, id: Seq<char>, p: Seq<char>, x: Seq<char>)
    ensures
        (kids_of(kids_add(k, key, id), p) matches Some(ch) && ch.contains(x))
            <==> ((kids_of(k, p) matches Some(ch) && ch.contains(x)) || (p == key && x == id)),
{
    lemma_kids_index(k, key);
    lemma_kids_index(k, p);
    let u = kids_add(k, key, id);
    match kids_index(k, key) {
        Some(j) => {
            let e = (key, k[j].1.push(id));
            assert(u == k.update(j, e));
            assert forall|i: int| 0 <= i < k.len() implies (#[trigger] u[i]).0 == k[i].0 by {}
            lemma_kids_index_keys(u, k, p);
            if p == key {
                assert(kids_index(k, p) == Some(j));
                assert(kids_of(u, p) == Some(k[j].1.push(id)));
                assert(kids_of(k, p) == Some(k[j].1));
                let s0 = k[j].1;
                assert(s0.push(id)[s0.len() as int] == id);
                if s0.push(id).contains(x) && x != id {
                    let q = choose|q: int| 0 <= q < s0.push(id).len() && s0.push(id)[q] == x;
                    assert(s0[q] == x);
                }
                if s0.contains(x) {
                    let q = choose|q: int| 0 <= q < s0.len() && s0[q] == x;
                    assert(s0.push(id)[q] == x);
                }
            } else {
                match kids_index(k, p) {
                    Some(jp) => {
                        assert(jp != j);
                        assert(u[jp] == k[jp]);
                    },
                    None => {},
                }
            }
        },
        None => {
            let e = (key, seq![id]);
            assert(u == k.push(e));
            assert(u.drop_last() =~= k);
            lemma_kids_index(u, p);
            if p == key {
                assert(kids_index(k, p) is None);
                assert(kids_index(u, p) == Some(k.len() as int));
                assert(kids_of(u, p) == Some(seq![id]));
                if seq![id].contains(x) {
                    let q = choose|q: int| 0 <= q < 1 && seq![id][q] == x;
                }
                assert(seq![id][0] == id);
            } else {
                match kids_index(k, p) {
                    Some(jp) => {
                        assert(u[jp] == k[jp]);
                    },
                    None => {},
                }
            }
        },
    }
}

/// A document is listed among the children of `p` in the tree exactly when
/// it is readable, passes the filters (its id starts with the module filter
/// and the root filter, where given), and its `parent_id` is `p`.
pub proof fn law_tree_children(module: Option<Seq<char>>, root: Option<Seq<char>>,
    fs: Seq<(Seq<char>, Option<Seq<char>>)>, p: Seq<char>, x: Seq<char>)
    ensures
        (kids_of(tree_tables(module, root, fs).1, p) matches Some(ch) && ch.contains(x))
            <==> exists|i: int| 0 <= i < fs.len() && (#[trigger] fs[i]).0 == x && fs[i].1 is Some
                && (match module { Some(m) => spec_starts_with(x, m), None => true })
                && (match root { Some(r) => spec_starts_with(x, r), None => true })
                && spec_group(RE_PARENT_ID@, fs[i].1.unwrap(), 1) == Some(p),
    decreases fs.len(),
{
    if fs.len() > 0 {
        let d = fs.drop_last();
        law_tree_children(module, root, d, p, x);
        let kd = tree_tables(module, root, d).1;
        let f = fs.last();
        let ok = (match module { Some(m) => spec_starts_with(f.0, m), None => true })
            && (match root { Some(r) => spec_starts_with(f.0, r), None => true });
        assert(tree_keeps(module, root, f.0) <==> ok) by {
            match root {
                Some(r) => {
                    let nf = if spec_ends_with(r, "."@) { r } else { r + "."@ };
                    if spec_starts_with(f.0, nf) {
                        assert(f.0.subrange(0, r.len() as int) =~= nf.subrange(0, r.len() as int));
                        assert(nf.subrange(0, r.len() as int) =~= r);
                    }
                    if f.0 == r {
                        assert(f.0.subrange(0, r.len() as int) =~= r);
                    }
                },
                None => {},
            }
        }
        match f.1 {
            Some(c) => {
                if tree_keeps(module, root, f.0) {
                    match spec_group(RE_PARENT_ID@, c, 1) {
                        Some(pid) => {
                            lemma_kids_add_of(kd, pid, f.0, p, x);
                        },
                        None => {},
                    }
                }
            },
            None => {},
        }
        if exists|i: int| 0 <= i < fs.len() && (#[trigger] fs[i]).0 == x && fs[i].1 is Some
            && (match module { Some(m) => spec_starts_with(x, m), None => true })
            && (match root { Some(r) => spec_starts_with(x, r), None => true })
            && spec_group(RE_PARENT_ID@, fs[i].1.unwrap(), 1) == Some(p) {
            let i = choose|i: int| 0 <= i < fs.len() && (#[trigger] fs[i]).0 == x && fs[i].1 is Some
                && (match module { Some(m) => spec_starts_with(x, m), None => true })
                && (match root { Some(r) => spec_starts_with(x, r), None => true })
                && spec_group(RE_PARENT_ID@, fs[i].1.unwrap(), 1) == Some(p);
            if i < fs.len() - 1 {
                assert(d[i] == fs[i]);
            }
        }
        if exists|i: int| 0 <= i < d.len() && (#[trigger] d[i]).0 == x && d[i].1 is Some
            && (match module { Some(m) => spec_starts_with(x, m), None => true })
            && (match root { Some(r) => spec_starts_with(x, r), None => true })
            && spec_group(RE_PARENT_ID@, d[i].1.unwrap(), 1) == Some(p) {
            let i = choose|i: int| 0 <= i < d.len() && (#[trigger] d[i]).0 == x && d[i].1 is Some
                && (match module { Some(m) => spec_starts_with(x, m), None => true })
                && (match root { Some(r) => spec_starts_with(x, r), None => true })
                && spec_group(RE_PARENT_ID@, d[i].1.unwrap(), 1) == Some(p);
            assert(fs[i] == d[i]);
        }
    }
}

} // verus!
