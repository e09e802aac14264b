//! Links found in document texts: Obsidian links and embeds, Markdown
//! links and embeds.

use vstd::prelude::*;
use vstd::utf8::encode_utf8;
use crate::patterns::{
    cap_at, cap_group, captures_all, captures_pos, opt_strs, pos_caps_view, spec_captures_all,
    spec_captures_pos, spec_split_pieces, split_pieces, weave, weave_exec,
};
use crate::text::{
    chars_of, concat2, contains_char, find, owned, push_str, slice_to_vec, spec_contains, spec_find,
    spec_starts_with, starts_with, str_eq, string_of, strs,
};

verus! {

/// Obsidian links, `[[target]]` or `[[target|alias]]`.
pub const OBSIDIAN_LINK: &'static str = r"\[\[([^\]|]+)(?:\|([^\]]+))?\]\]";

/// Markdown links, `[text](url)`.
pub const MD_LINK: &'static str = r"\[([^\]]*)\]\(([^)]+)\)";

/// Obsidian embeds, `![[file]]`.
pub const OBSIDIAN_EMBED: &'static str = r"!\[\[([^\]]+)\]\]";

/// Markdown embeds, `![alt](url)`.
pub const MD_EMBED: &'static str = r"!\[([^\]]*)\]\(([^)]+)\)";

/// Kind of a link.
#[derive(Debug, Clone, Copy, PartialEq, Eq, Structural)]
pub enum LinkType {
    ObsidianInternal,
    Markdown,
    ObsidianEmbed,
    MarkdownEmbed,
    External,
}

/// A link found in a text.
#[derive(Debug, Clone)]
pub struct Link {
    pub link_type: LinkType,
    pub target: String,
    pub text: Option<String>,
    /// Byte offset where the link starts.
    pub position: usize,
    pub raw: String,
}

/// A link whose target was not found.
#[derive(Debug, Clone)]
pub struct BrokenLink {
    pub link: Link,
    pub source_file: String,
    pub reason: String,
}

/// A link as (kind, target, text, position, raw text).
pub type LinkView = (LinkType, Seq<char>, Option<Seq<char>>, nat, Seq<char>);

/// The view of a link.
pub open spec fn link_view(l: Link) -> LinkView {
    (l.link_type, l.target@, match l.text { Some(t) => Some(t@), None => None }, l.position as nat, l.raw@)
}

/// The views of links.
pub open spec fn links_view(v: Seq<Link>) -> Seq<LinkView> {
    v.map_values(|l: Link| link_view(l))
}

/// A target that is no web or mail address.
pub open spec fn internal_target(t: Seq<char>) -> bool {
    !spec_starts_with(t, "http://"@) && !spec_starts_with(t, "https://"@) && !spec_starts_with(t, "mailto:"@)
}

/// A kind of embed.
pub open spec fn embed_kind(k: LinkType) -> bool {
    k == LinkType::ObsidianEmbed || k == LinkType::MarkdownEmbed
}

/// The target without its anchor, with `.md` added to an internal,
/// non-embed target without a dot.
pub open spec fn normalized(l: LinkView) -> Seq<char> {
    let t = match spec_find(l.1, "#"@) { Some(p) => l.1.subrange(0, p), None => l.1 };
    if !spec_contains(t, "."@) && internal_target(l.1) && !embed_kind(l.0) { t + ".md"@ } else { t }
}

impl Link {
    /// Whether the link stays inside the documentation.
    pub fn is_internal(&self) -> (r: bool)
        ensures
            r == internal_target(self.target@),
    {
        let t = chars_of(self.target.as_str());
        !starts_with(&t, &chars_of("http://")) && !starts_with(&t, &chars_of("https://")) && !starts_with(&t, &chars_of("mailto:"))
    }

    /// Whether the link leaves the documentation.
    pub fn is_external(&self) -> (r: bool)
        ensures
            r == !internal_target(self.target@),
    {
        !self.is_internal()
    }

    /// Whether the link embeds its target.
    pub fn is_embed(&self) -> (r: bool)
        ensures
            r == embed_kind(self.link_type),
    {
        self.link_type == LinkType::ObsidianEmbed || self.link_type == LinkType::MarkdownEmbed
    }

    /// The target as compared (see [`normalized`]).
    pub fn normalized_target(&self) -> (s: String)
        ensures
            s@ == normalized(link_view(*self)),
    {
        let t = chars_of(self.target.as_str());
        let hash = chars_of("#");
        let base = match find(&t, &hash) {
            Some(p) => {
                proof {
                    crate::text::lemma_find_from(t@, hash@, 0);
                }
                slice_to_vec(&t, 0, p)
            },
            None => slice_to_vec(&t, 0, t.len()),
        };
        assert(t@.subrange(0, t@.len() as int) =~= t@);
        let s = string_of(&base);
        if find(&base, &chars_of(".")).is_none() && self.is_internal() && !self.is_embed() {
            concat2(s.as_str(), ".md")
        } else {
            s
        }
    }
}

/// The byte before `start` in the text is `!`.
pub open spec fn after_bang(c: Seq<char>, start: nat) -> bool {
    start > 0 && start <= encode_utf8(c).len() && encode_utf8(c)[start - 1] == 33u8
}

/// Group `k` of a match, or the empty text.
pub open spec fn group_or_empty(g: Seq<Option<Seq<char>>>, k: int) -> Seq<char> {
    match cap_group(g, k) { Some(x) => x, None => Seq::empty() }
}

/// The links of one kind of match, in order of the matches.
pub open spec fn links_of(kind: nat, c: Seq<char>, ms: Seq<(nat, Seq<Option<Seq<char>>>)>) -> Seq<LinkView>
    decreases ms.len(),
{
    if ms.len() == 0 {
        Seq::empty()
    } else {
        let p = links_of(kind, c, ms.drop_last());
        let m = ms.last();
        let raw = group_or_empty(m.1, 0);
        if kind == 0 {
            p.push((LinkType::ObsidianEmbed, group_or_empty(m.1, 1), None, m.0, raw))
        } else if kind == 1 {
            p.push((LinkType::MarkdownEmbed, group_or_empty(m.1, 2), Some(group_or_empty(m.1, 1)), m.0, raw))
        } else if after_bang(c, m.0) {
            p
        } else if kind == 2 {
            p.push((LinkType::ObsidianInternal, group_or_empty(m.1, 1), cap_group(m.1, 2), m.0, raw))
        } else {
            let t = group_or_empty(m.1, 2);
            let ty = if spec_starts_with(t, "http://"@) || spec_starts_with(t, "https://"@) { LinkType::External } else { LinkType::Markdown };
            p.push((ty, t, Some(group_or_empty(m.1, 1)), m.0, raw))
        }
    }
}

/// `x` inserted after the last link whose position is at most its own.
pub open spec fn insert_by_pos(s: Seq<LinkView>, x: LinkView) -> Seq<LinkView>
    decreases s.len(),
{
    if s.len() == 0 || s.last().3 <= x.3 { s.push(x) } else { insert_by_pos(s.drop_last(), x).push(s.last()) }
}

/// The links by position, links at one position in their original order.
pub open spec fn sort_by_pos(s: Seq<LinkView>) -> Seq<LinkView>
    decreases s.len(),
{
    if s.len() == 0 { Seq::empty() } else { insert_by_pos(sort_by_pos(s.drop_last()), s.last()) }
}

/// All links of a text: Obsidian embeds, Markdown embeds, Obsidian links
/// and Markdown links not preceded by `!`, then ordered by position.
pub open spec fn spec_extract_links(c: Seq<char>) -> Seq<LinkView> {
    sort_by_pos(
        links_of(0, c, spec_captures_pos(OBSIDIAN_EMBED@, c))
            + links_of(1, c, spec_captures_pos(MD_EMBED@, c))
            + links_of(2, c, spec_captures_pos(OBSIDIAN_LINK@, c))
            + links_of(3, c, spec_captures_pos(MD_LINK@, c)),
    )
}

/// Group `k` of a match, or an empty text.
fn group_text(g: &Vec<Option<String>>, k: usize) -> (s: String)
    ensures
        s@ == group_or_empty(opt_strs(g@), k as int),
{
    match cap_at(g, k) {
        Some(x) => x,
        None => String::new(),
    }
}

/// Adds the links of one kind of match.
fn push_links(out: &mut Vec<Link>, kind: usize, c: &str, bytes: &[u8], pattern: &str)
    requires
        bytes@ == encode_utf8(c@),
    ensures
        links_view(final(out)@) == links_view(old(out)@) + links_of(kind as nat, c@, spec_captures_pos(pattern@, c@)),
{
    let ms = captures_pos(pattern, c);
    let ghost mv = pos_caps_view(ms@);
    let ghost o0 = links_view(out@);
    let mut i: usize = 0;
    assert(mv.subrange(0, 0) =~= Seq::<(nat, Seq<Option<Seq<char>>>)>::empty());
    assert(links_view(out@) =~= o0 + links_of(kind as nat, c@, mv.subrange(0, 0)));
    while i < ms.len()
        invariant
            i <= ms@.len(),
            mv == pos_caps_view(ms@),
            bytes@ == encode_utf8(c@),
            links_view(out@) == o0 + links_of(kind as nat, c@, mv.subrange(0, i as int)),
        decreases ms@.len() - i,
    {
        let ghost sub = mv.subrange(0, i + 1);
        assert(sub.drop_last() =~= mv.subrange(0, i as int));
        assert(sub.last() == (ms@[i as int].0 as nat, opt_strs(ms@[i as int].1@)));
        let start = ms[i].0;
        let g = &ms[i].1;
        let raw = group_text(g, 0);
        let ghost before = links_view(out@);
        if kind == 0 {
            out.push(Link { link_type: LinkType::ObsidianEmbed, target: group_text(g, 1), text: None, position: start, raw });
            assert(links_view(out@) =~= before.push(links_view(out@).last()));
        } else if kind == 1 {
            out.push(Link { link_type: LinkType::MarkdownEmbed, target: group_text(g, 2), text: Some(group_text(g, 1)), position: start, raw });
            assert(links_view(out@) =~= before.push(links_view(out@).last()));
        } else {
            let bang = start > 0 && start <= bytes.len() && bytes[start - 1] == 33u8;
            if !bang {
                if kind == 2 {
                    out.push(Link { link_type: LinkType::ObsidianInternal, target: group_text(g, 1), text: cap_at(g, 2), position: start, raw });
                    assert(links_view(out@) =~= before.push(links_view(out@).last()));
                } else {
                    let t = group_text(g, 2);
                    let tc = chars_of(t.as_str());
                    let ext = starts_with(&tc, &chars_of("http://")) || starts_with(&tc, &chars_of("https://"));
                    let ty = if ext { LinkType::External } else { LinkType::Markdown };
                    out.push(Link { link_type: ty, target: t, text: Some(group_text(g, 1)), position: start, raw });
                    assert(links_view(out@) =~= before.push(links_view(out@).last()));
                }
            }
        }
        i = i + 1;
    }
    assert(mv.subrange(0, ms@.len() as int) =~= mv);
}

/// Inserts a link after the last one whose position is at most its own.
fn insert_by_pos_exec(r: &mut Vec<Link>, x: Link)
    ensures
        links_view(final(r)@) == insert_by_pos(links_view(old(r)@), link_view(x)),
{
    let ghost xv = link_view(x);
    let mut p: usize = r.len();
    let ghost rv = links_view(r@);
    assert(rv.subrange(0, rv.len() as int) =~= rv);
    assert(insert_by_pos(rv, xv) =~= insert_by_pos(rv.subrange(0, p as int), xv) + rv.subrange(p as int, rv.len() as int));
    while p > 0 && r[p - 1].position > x.position
        invariant
            p <= r@.len(),
            rv == links_view(r@),
            xv == link_view(x),
            insert_by_pos(rv, xv) == insert_by_pos(rv.subrange(0, p as int), xv) + rv.subrange(p as int, rv.len() as int),
        decreases p,
    {
        let ghost pre = rv.subrange(0, p as int);
        assert(pre.drop_last() =~= rv.subrange(0, p - 1));
        assert(pre.last() == rv[p - 1]);
        assert(insert_by_pos(pre, xv) == insert_by_pos(rv.subrange(0, p - 1), xv).push(pre.last()));
        assert(insert_by_pos(rv.subrange(0, p - 1), xv).push(pre.last()) + rv.subrange(p as int, rv.len() as int)
            =~= insert_by_pos(rv.subrange(0, p - 1), xv) + rv.subrange(p - 1, rv.len() as int));
        p = p - 1;
    }
    r.insert(p, x);
    proof {
        let pre = rv.subrange(0, p as int);
        if pre.len() > 0 {
            assert(pre.last() == rv[p - 1]);
        }
        assert(insert_by_pos(pre, xv) == pre.push(xv));
        assert(links_view(r@) =~= pre.push(xv) + rv.subrange(p as int, rv.len() as int));
    }
}

/// Every link of a text (see [`spec_extract_links`]).
pub fn extract_links(content: &str) -> (links: Vec<Link>)
    ensures
        links_view(links@) == spec_extract_links(content@),
{
    let bytes = content.as_bytes();
    let mut all: Vec<Link> = Vec::new();
    assert(links_view(all@) =~= Seq::<LinkView>::empty());
    push_links(&mut all, 0, content, bytes, OBSIDIAN_EMBED);
    push_links(&mut all, 1, content, bytes, MD_EMBED);
    push_links(&mut all, 2, content, bytes, OBSIDIAN_LINK);
    push_links(&mut all, 3, content, bytes, MD_LINK);
    let ghost av = links_view(all@);
    let mut sorted: Vec<Link> = Vec::new();
    let mut k: usize = 0;
    let n = all.len();
    assert(av.subrange(0, 0) =~= Seq::<LinkView>::empty());
    assert(links_view(sorted@) =~= sort_by_pos(av.subrange(0, 0)));
    while all.len() > 0
        invariant
            k + all@.len() == n,
            n == av.len(),
            links_view(all@) == av.subrange(k as int, n as int),
            links_view(sorted@) == sort_by_pos(av.subrange(0, k as int)),
        decreases all@.len(),
    {
        let ghost a0 = all@;
        let x = all.remove(0);
        assert(links_view(a0)[0] == av[k as int]);
        assert forall|j: int| 0 <= j < all@.len() implies links_view(all@)[j] == av.subrange(k + 1, n as int)[j] by {
            assert(all@[j] == a0[j + 1]);
            assert(links_view(a0)[j + 1] == av[k + 1 + j]);
        }
        assert(links_view(all@) =~= av.subrange(k + 1, n as int));
        let ghost sub = av.subrange(0, k + 1);
        assert(sub.drop_last() =~= av.subrange(0, k as int));
        insert_by_pos_exec(&mut sorted, x);
        k = k + 1;
    }
    assert(av.subrange(0, n as int) =~= av);
    sorted
}

/// The distinct normalized targets of the internal links of a text, in
/// order of first appearance.
pub open spec fn unique_targets(ls: Seq<LinkView>) -> Seq<Seq<char>>
    decreases ls.len(),
{
    if ls.len() == 0 {
        Seq::empty()
    } else {
        let p = unique_targets(ls.drop_last());
        let l = ls.last();
        if internal_target(l.1) && !p.contains(normalized(l)) { p.push(normalized(l)) } else { p }
    }
}

/// The distinct normalized targets of the internal links of a text.
pub fn extract_unique_targets(content: &str) -> (v: Vec<String>)
    ensures
        strs(v@) == unique_targets(spec_extract_links(content@)),
{
    let links = extract_links(content);
    let ghost lv = links_view(links@);
    let mut v: Vec<String> = Vec::new();
    let mut i: usize = 0;
    assert(lv.subrange(0, 0) =~= Seq::<LinkView>::empty());
    while i < links.len()
        invariant
            i <= links@.len(),
            lv == links_view(links@),
            strs(v@) == unique_targets(lv.subrange(0, i as int)),
        decreases links@.len() - i,
    {
        let ghost sub = lv.subrange(0, i + 1);
        assert(sub.drop_last() =~= lv.subrange(0, i as int));
        assert(sub.last() == link_view(links@[i as int]));
        if links[i].is_internal() {
            let t = links[i].normalized_target();
            let mut seen = false;
            let mut j: usize = 0;
            while j < v.len()
                invariant
                    j <= v@.len(),
                    seen == exists|q: int| 0 <= q < j && strs(v@)[q] == t@,
                decreases v@.len() - j,
            {
                assert(strs(v@)[j as int] == v@[j as int]@);
                if str_eq(v[j].as_str(), t.as_str()) {
                    seen = true;
                }
                j = j + 1;
            }
            assert(seen == strs(v@).contains(t@));
            if !seen {
                let ghost v0 = strs(v@);
                v.push(t);
                assert(strs(v@) =~= v0.push(normalized(lv[i as int])));
            }
        }
        i = i + 1;
    }
    assert(lv.subrange(0, links@.len() as int) =~= lv);
    v
}

/// `s` without any number of trailing `.md`.
pub open spec fn trim_md(s: Seq<char>) -> Seq<char>
    decreases s.len(),
{
    if s.len() >= 3 && s.subrange(s.len() - 3, s.len() as int) == ".md"@ { trim_md(s.subrange(0, s.len() - 3)) } else { s }
}

/// Whether a target names a known file: the name itself, or with `.md`
/// once.
pub open spec fn known_name(names: Seq<Seq<char>>, t: Seq<char>) -> bool {
    exists|k: int| 0 <= k < names.len() && (#[trigger] names[k] == t || names[k] == trim_md(t) + ".md"@)
}

/// Whether link `i` exists: as resolved on disk when it could be, else by
/// its name.
pub open spec fn link_exists(resolved: Seq<Option<bool>>, i: int, names: Seq<Seq<char>>, t: Seq<char>) -> bool {
    match (if 0 <= i < resolved.len() { resolved[i] } else { None }) {
        Some(b) => b,
        None => known_name(names, t),
    }
}

/// The broken links among the first `n`, as (link, reason).
pub open spec fn broken_of(ls: Seq<LinkView>, resolved: Seq<Option<bool>>, names: Seq<Seq<char>>, n: nat) -> Seq<(LinkView, Seq<char>)>
    decreases n,
{
    if n == 0 || n > ls.len() {
        Seq::empty()
    } else {
        let p = broken_of(ls, resolved, names, (n - 1) as nat);
        let l = ls[n - 1];
        let t = normalized(l);
        if internal_target(l.1) && !link_exists(resolved, n - 1, names, t) {
            p.push((l, "Target '"@ + t + "' not found"@))
        } else {
            p
        }
    }
}

/// The views of broken links.
pub open spec fn broken_view(v: Seq<BrokenLink>) -> Seq<(LinkView, Seq<char>)> {
    v.map_values(|b: BrokenLink| (link_view(b.link), b.reason@))
}

/// `s` without trailing `.md`.
fn trim_md_exec(s: &Vec<char>) -> (r: Vec<char>)
    ensures
        r@ == trim_md(s@),
{
    let md = chars_of(".md");
    proof {
        reveal_strlit(".md");
    }
    let mut n: usize = s.len();
    assert(s@.subrange(0, n as int) =~= s@);
    while n >= 3 && crate::text::seq_eq(&slice_to_vec(s, n - 3, n), &md)
        invariant
            n <= s@.len(),
            md@ == ".md"@,
            trim_md(s@) == trim_md(s@.subrange(0, n as int)),
        decreases n,
    {
        let ghost t = s@.subrange(0, n as int);
        assert(t.subrange(t.len() - 3, t.len() as int) =~= s@.subrange(n - 3, n as int));
        assert(t.subrange(0, t.len() - 3) =~= s@.subrange(0, n - 3));
        n = n - 3;
    }
    proof {
        let t = s@.subrange(0, n as int);
        if n >= 3 {
            assert(t.subrange(t.len() - 3, t.len() as int) =~= s@.subrange(n - 3, n as int));
        }
    }
    slice_to_vec(s, 0, n)
}

/// A copy of a link.
fn copy_link(l: &Link) -> (c: Link)
    ensures
        link_view(c) == link_view(*l),
{
    Link {
        link_type: l.link_type,
        target: owned(l.target.as_str()),
        text: match &l.text { Some(t) => Some(owned(t.as_str())), None => None },
        position: l.position,
        raw: owned(l.raw.as_str()),
    }
}

/// The broken links of a file (see [`broken_of`]): `resolved` tells, per
/// link, whether its path resolved on disk to a known file (`None` when
/// the path could not be resolved); `known_names` are the names of the
/// known files.
pub fn validate_links(links: &Vec<Link>, source_file: &str, resolved: &Vec<Option<bool>>, known_names: &Vec<String>) -> (b: Vec<BrokenLink>)
    ensures
        broken_view(b@) == broken_of(links_view(links@), resolved@, strs(known_names@), links@.len() as nat),
        forall|k: int| 0 <= k < b@.len() ==> (#[trigger] b@[k]).source_file@ == source_file@,
{
    let ghost lv = links_view(links@);
    let ghost names = strs(known_names@);
    let mut b: Vec<BrokenLink> = Vec::new();
    let mut i: usize = 0;
    assert(broken_view(b@) =~= Seq::<(LinkView, Seq<char>)>::empty());
    while i < links.len()
        invariant
            i <= links@.len(),
            lv == links_view(links@),
            names == strs(known_names@),
            broken_view(b@) == broken_of(lv, resolved@, names, i as nat),
            forall|k: int| 0 <= k < b@.len() ==> (#[trigger] b@[k]).source_file@ == source_file@,
        decreases links@.len() - i,
    {
        let l = &links[i];
        assert(lv[i as int] == link_view(*l));
        if l.is_internal() {
            let t = l.normalized_target();
            let r: Option<bool> = if i < resolved.len() { resolved[i] } else { None };
            let exists = match r {
                Some(x) => x,
                None => {
                    let tc = chars_of(t.as_str());
                    let alt = concat2(string_of(&trim_md_exec(&tc)).as_str(), ".md");
                    let mut found = false;
                    let mut j: usize = 0;
                    while j < known_names.len()
                        invariant
                            j <= known_names@.len(),
                            names == strs(known_names@),
                            alt@ == trim_md(t@) + ".md"@,
                            found == exists|k: int| 0 <= k < j && (#[trigger] names[k] == t@ || names[k] == trim_md(t@) + ".md"@),
                        decreases known_names@.len() - j,
                    {
                        assert(names[j as int] == known_names@[j as int]@);
                        if str_eq(known_names[j].as_str(), t.as_str()) || str_eq(known_names[j].as_str(), alt.as_str()) {
                            found = true;
                        }
                        j = j + 1;
                    }
                    found
                },
            };
            if !exists {
                let mut reason = concat2("Target '", t.as_str());
                crate::text::push_str(&mut reason, "' not found");
                let ghost b0 = broken_view(b@);
                b.push(BrokenLink { link: copy_link(l), source_file: owned(source_file), reason });
                assert(broken_view(b@) =~= b0.push((lv[i as int], "Target '"@ + t@ + "' not found"@)));
            }
        }
        i = i + 1;
    }
    b
}

/// How a match is rewritten.
#[derive(Clone, Copy, PartialEq, Eq, Structural)]
pub enum Rewrite {
    /// A wikilink to `old` pointed to `new`, keeping its alias.
    WikiTarget,
    /// A Markdown link to `old` pointed to `new`, keeping its text.
    MdTarget,
    /// A wikilink embed turned into a Markdown image.
    EmbedToMd,
    /// A wikilink turned into a Markdown link to the `.md` file.
    WikiToMd,
}

/// The text that replaces one match.
pub open spec fn rewrite_match(kind: Rewrite, c: Seq<Option<Seq<char>>>, old: Seq<char>, new: Seq<char>) -> Seq<char> {
    match kind {
        Rewrite::WikiTarget => if cap_group(c, 1) == Some(old) {
            match cap_group(c, 2) {
                Some(a) => "[["@ + new + "|"@ + a + "]]"@,
                None => "[["@ + new + "]]"@,
            }
        } else {
            group_or_empty(c, 0)
        },
        Rewrite::MdTarget => if cap_group(c, 2) == Some(old) {
            "["@ + group_or_empty(c, 1) + "]("@ + new + ")"@
        } else {
            group_or_empty(c, 0)
        },
        Rewrite::EmbedToMd => "!["@ + group_or_empty(c, 1) + "]("@ + group_or_empty(c, 1) + ")"@,
        Rewrite::WikiToMd => {
            let target = group_or_empty(c, 1);
            let text = match cap_group(c, 2) { Some(a) => a, None => target };
            let file = if target.contains('.') { target } else { target + ".md"@ };
            "["@ + text + "]("@ + file + ")"@
        },
    }
}

/// `content` with every match of `pattern` rewritten (`Regex::replace_all`
/// with a replacement computed from each match).
pub open spec fn rewrite_all(kind: Rewrite, pattern: Seq<char>, content: Seq<char>, old: Seq<char>, new: Seq<char>) -> Seq<char> {
    weave(spec_split_pieces(pattern, content),
        spec_captures_all(pattern, content).map_values(|c: Seq<Option<Seq<char>>>| rewrite_match(kind, c, old, new)))
}

/// The replacement text of one match.
fn rewrite_match_exec(kind: Rewrite, c: &Vec<Option<String>>, old: &str, new: &str) -> (r: String)
    ensures
        r@ == rewrite_match(kind, opt_strs(c@), old@, new@),
{
    let whole = match cap_at(c, 0) { Some(w) => w, None => String::new() };
    let g1 = match cap_at(c, 1) { Some(t) => t, None => String::new() };
    match kind {
        Rewrite::WikiTarget => {
            let same = match cap_at(c, 1) { Some(t) => str_eq(t.as_str(), old), None => false };
            if same {
                let mut s = owned("[[");
                push_str(&mut s, new);
                match cap_at(c, 2) {
                    Some(a) => {
                        push_str(&mut s, "|");
                        push_str(&mut s, a.as_str());
                    },
                    None => {},
                }
                push_str(&mut s, "]]");
                s
            } else {
                whole
            }
        },
        Rewrite::MdTarget => {
            let same = match cap_at(c, 2) { Some(t) => str_eq(t.as_str(), old), None => false };
            if same {
                let mut s = owned("[");
                push_str(&mut s, g1.as_str());
                push_str(&mut s, "](");
                push_str(&mut s, new);
                push_str(&mut s, ")");
                s
            } else {
                whole
            }
        },
        Rewrite::EmbedToMd => {
            let mut s = owned("![");
            push_str(&mut s, g1.as_str());
            push_str(&mut s, "](");
            push_str(&mut s, g1.as_str());
            push_str(&mut s, ")");
            s
        },
        Rewrite::WikiToMd => {
            let text = match cap_at(c, 2) { Some(a) => a, None => owned(g1.as_str()) };
            let mut s = owned("[");
            push_str(&mut s, text.as_str());
            push_str(&mut s, "](");
            push_str(&mut s, g1.as_str());
            if !contains_char(&chars_of(g1.as_str()), '.') {
                push_str(&mut s, ".md");
            }
            push_str(&mut s, ")");
            s
        },
    }
}

/// `content` with every match of `pattern` rewritten.
fn rewrite_all_exec(kind: Rewrite, pattern: &str, content: &str, old: &str, new: &str) -> (r: String)
    ensures
        r@ == rewrite_all(kind, pattern@, content@, old@, new@),
{
    let pieces = split_pieces(pattern, content);
    let caps = captures_all(pattern, content);
    let ghost cv = spec_captures_all(pattern@, content@);
    let mut reps: Vec<String> = Vec::new();
    let mut k: usize = 0;
    while k < caps.len()
        invariant
            k <= caps@.len(),
            caps@.map_values(|c: Vec<Option<String>>| opt_strs(c@)) == cv,
            strs(reps@) == cv.subrange(0, k as int).map_values(|c: Seq<Option<Seq<char>>>| rewrite_match(kind, c, old@, new@)),
        decreases caps@.len() - k,
    {
        assert(opt_strs(caps@[k as int]@) == cv[k as int]);
        let rep = rewrite_match_exec(kind, &caps[k], old, new);
        let ghost r0 = strs(reps@);
        let ghost rv = rep@;
        reps.push(rep);
        assert(strs(reps@) =~= r0.push(rv));
        assert(cv.subrange(0, k + 1).map_values(|c: Seq<Option<Seq<char>>>| rewrite_match(kind, c, old@, new@))
            =~= cv.subrange(0, k as int).map_values(|c: Seq<Option<Seq<char>>>| rewrite_match(kind, c, old@, new@)).push(
                rewrite_match(kind, cv[k as int], old@, new@)));
        k = k + 1;
    }
    assert(cv.subrange(0, caps@.len() as int) =~= cv);
    weave_exec(&pieces, &reps)
}

/// A link target replaced: wikilinks to `old_target` (keeping their alias),
/// then Markdown links to `old_target` (keeping their text), now point to
/// `new_target`.
pub open spec fn spec_replace_link(content: Seq<char>, old_target: Seq<char>, new_target: Seq<char>) -> Seq<char> {
    let r1 = rewrite_all(Rewrite::WikiTarget, OBSIDIAN_LINK@, content, old_target, new_target);
    rewrite_all(Rewrite::MdTarget, MD_LINK@, r1, old_target, new_target)
}

/// Replaces a link target in a text.
pub fn replace_link(content: &str, old_target: &str, new_target: &str) -> (r: String)
    ensures
        r@ == spec_replace_link(content@, old_target@, new_target@),
{
    let r1 = rewrite_all_exec(Rewrite::WikiTarget, OBSIDIAN_LINK, content, old_target, new_target);
    rewrite_all_exec(Rewrite::MdTarget, MD_LINK, r1.as_str(), old_target, new_target)
}

/// Wikilinks converted to Markdown: embeds `![[f]]` become `![f](f)`, then
/// links `[[t|a]]` become `[a](t.md)` (the alias defaulting to the target,
/// `.md` added when the target has no dot).
pub open spec fn spec_convert_obsidian_to_md(content: Seq<char>) -> Seq<char> {
    let r1 = rewrite_all(Rewrite::EmbedToMd, OBSIDIAN_EMBED@, content, Seq::empty(), Seq::empty());
    rewrite_all(Rewrite::WikiToMd, OBSIDIAN_LINK@, r1, Seq::empty(), Seq::empty())
}

/// Converts the wikilinks of a text to Markdown.
pub fn convert_obsidian_to_md(content: &str) -> (r: String)
    ensures
        r@ == spec_convert_obsidian_to_md(content@),
{
    let none = String::new();
    let r1 = rewrite_all_exec(Rewrite::EmbedToMd, OBSIDIAN_EMBED, content, none.as_str(), none.as_str());
    rewrite_all_exec(Rewrite::WikiToMd, OBSIDIAN_LINK, r1.as_str(), none.as_str(), none.as_str())
}

} // verus!
