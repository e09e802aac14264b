//! Regular expressions for the front matter fields, links, embeds and tables
//! of the documentation, matched with the `regex` crate.

use vstd::prelude::*;

verus! {

// ─────────────────────────────────────────────────────────────────────────
// Front matter
// ─────────────────────────────────────────────────────────────────────────

/// `document_id: <value>`.
pub const RE_DOCUMENT_ID: &'static str = r#"document_id:\s*["']?([^"'\n]+)["']?"#;

/// `parent_id: <value>`.
pub const RE_PARENT_ID: &'static str = r#"parent_id:\s*["']?([^"'\s\n]+)["']?"#;

/// `module: <value>`.
pub const RE_MODULE: &'static str = r#"module:\s*["']?([^"'\n]+)["']?"#;

/// `title: <value>`.
pub const RE_TITLE: &'static str = r#"title:\s*["']?([^"'\n]+)["']?"#;

/// `status: <value>`.
pub const RE_STATUS: &'static str = r#"status:\s*["']?([^"'\n]+)["']?"#;

/// `last_updated: <value>`.
pub const RE_LAST_UPDATED: &'static str = r#"last_updated:\s*["']?([^"'\n]+)["']?"#;

/// `content_hash: <value>`.
pub const RE_CONTENT_HASH: &'static str = r#"content_hash:\s*["']?([^"'\n]+)["']?"#;

/// `children_count: <number>`.
pub const RE_CHILDREN_COUNT: &'static str = r#"children_count:\s*(\d+)"#;

/// `total_children: <number>`.
pub const RE_TOTAL_CHILDREN: &'static str = r#"total_children:\s*(\d+)"#;

/// `type: <value>`.
pub const RE_TYPE: &'static str = r#"type:\s*["']?([^"'\n]+)["']?"#;

/// `draft: true`.
pub const RE_DRAFT: &'static str = r#"draft:\s*true"#;

// ─────────────────────────────────────────────────────────────────────────
// Links
// ─────────────────────────────────────────────────────────────────────────

/// `[[target]]`, capturing `target`.
pub const RE_WIKI_LINK: &'static str = r"\[\[([^\]]+)\]\]";

/// `[[target|alias]]`, capturing `target` only.
pub const RE_WIKI_LINK_WITH_ALIAS: &'static str = r"\[\[([^\]|]+)(?:\|[^\]]+)?\]\]";

/// `[[target|alias]]`, capturing both.
pub const RE_WIKI_LINK_FULL: &'static str = r"\[\[([^\]|]+)(?:\|([^\]]+))?\]\]";

/// `[text](url)`, capturing both.
pub const RE_MD_LINK: &'static str = r"\[([^\]]+)\]\(([^)]+)\)";

/// `[text](file.md)`, capturing both.
pub const RE_MD_LINK_TO_MD: &'static str = r"\[([^\]]+)\]\(([^)]+\.md)\)";

// ─────────────────────────────────────────────────────────────────────────
// Embedded content
// ─────────────────────────────────────────────────────────────────────────

/// `![[target]]`, capturing `target`.
pub const RE_OBSIDIAN_EMBED: &'static str = r"!\[\[([^\]]+)\]\]";

/// `![alt](src)`, capturing both.
pub const RE_MD_EMBED: &'static str = r"!\[([^\]]*)\]\(([^)]+)\)";

/// An image, `![alt](src)`.
pub const RE_IMAGE: &'static str = r"!\[([^\]]*)\]\(([^)]+)\)";

/// An image without alt text, `![](src)`.
pub const RE_IMAGE_EMPTY_ALT: &'static str = r"!\[\]\([^)]+\)";

/// A fenced mermaid block, capturing its body.
pub const RE_MERMAID: &'static str = r"```mermaid\s*([\s\S]*?)```";

// ─────────────────────────────────────────────────────────────────────────
// Tables
// ─────────────────────────────────────────────────────────────────────────

/// A table row, `| ... |`.
pub const RE_TABLE_ROW: &'static str = r"(?m)^\|.+\|$";

/// A table separator, `|---|---|`.
pub const RE_TABLE_SEPARATOR: &'static str = r"(?m)^\|[-:\s|]+\|$";

// ─────────────────────────────────────────────────────────────────────────
// Matching
// ─────────────────────────────────────────────────────────────────────────

/// What `Regex::new(pattern)` followed by `is_match(text)` gives: `None`
/// when the pattern does not compile.
pub uninterp spec fn spec_regex_is_match(pattern: Seq<char>, text: Seq<char>) -> Option<bool>;

/// What `Regex::new(pattern)` followed by `captures(text)` gives: `None`
/// when the pattern does not compile; otherwise the groups of the leftmost
/// match (group 0 is the whole match), or `None` when nothing matches.
pub uninterp spec fn spec_regex_captures(pattern: Seq<char>, text: Seq<char>) -> Option<Option<Seq<Option<Seq<char>>>>>;

/// `regex::Regex::new` then `Regex::is_match`.
#[verifier::external_body]
fn regex_is_match(pattern: &str, text: &str) -> (r: Option<bool>)
    ensures
        r == spec_regex_is_match(pattern@, text@),
{
    match regex::Regex::new(pattern) {
        Ok(re) => Some(re.is_match(text)),
        Err(_) => None,
    }
}

/// `regex::Regex::new` then `Regex::captures`, each group converted to an
/// owned string.
#[verifier::external_body]
fn regex_captures(pattern: &str, text: &str) -> (r: Option<Option<Vec<Option<String>>>>)
    ensures
        match r {
            None => spec_regex_captures(pattern@, text@) is None,
            Some(None) => spec_regex_captures(pattern@, text@) == Some(None::<Seq<Option<Seq<char>>>>),
            Some(Some(v)) => spec_regex_captures(pattern@, text@) == Some(Some(opt_strs(v@))),
        },
{
    match regex::Regex::new(pattern) {
        Ok(re) => Some(re.captures(text).map(|c| c.iter().map(|m| m.map(|m| m.as_str().to_string())).collect())),
        Err(_) => None,
    }
}

/// The texts of a sequence of optional strings.
pub open spec fn opt_strs(v: Seq<Option<String>>) -> Seq<Option<Seq<char>>> {
    v.map_values(|o: Option<String>| match o { Some(s) => Some(s@), None => None })
}

/// Whether `pattern` matches somewhere in `text`; `false` when the pattern
/// does not compile.
pub open spec fn spec_is_match(pattern: Seq<char>, text: Seq<char>) -> bool {
    spec_regex_is_match(pattern, text) == Some(true)
}

/// The capture groups of the leftmost match of `pattern` in `text`.
pub open spec fn spec_captures(pattern: Seq<char>, text: Seq<char>) -> Option<Seq<Option<Seq<char>>>> {
    match spec_regex_captures(pattern, text) {
        Some(c) => c,
        None => None,
    }
}

/// Whether `pattern` matches somewhere in `text`.
pub fn is_match(pattern: &str, text: &str) -> (r: bool)
    ensures
        r == spec_is_match(pattern@, text@),
{
    match regex_is_match(pattern, text) {
        Some(b) => b,
        None => false,
    }
}

/// The capture groups of the leftmost match of `pattern` in `text`.
pub fn captures(pattern: &str, text: &str) -> (r: Option<Vec<Option<String>>>)
    ensures
        match r {
            Some(v) => spec_captures(pattern@, text@) == Some(opt_strs(v@)),
            None => spec_captures(pattern@, text@) is None,
        },
{
    match regex_captures(pattern, text) {
        Some(c) => c,
        None => None,
    }
}

/// The text of capture group `k` of the leftmost match, if any.
pub open spec fn spec_group(pattern: Seq<char>, text: Seq<char>, k: int) -> Option<Seq<char>> {
    match spec_captures(pattern, text) {
        Some(g) => if 0 <= k < g.len() { g[k] } else { None },
        None => None,
    }
}

/// Capture group `k` of the leftmost match of `pattern` in `text`.
pub fn group(pattern: &str, text: &str, k: usize) -> (r: Option<String>)
    ensures
        match r {
            Some(s) => spec_group(pattern@, text@, k as int) == Some(s@),
            None => spec_group(pattern@, text@, k as int) is None,
        },
{
    match captures(pattern, text) {
        Some(g) => {
            if k < g.len() {
                match &g[k] {
                    Some(s) => Some(s.clone()),
                    None => None,
                }
            } else {
                None
            }
        },
        None => None,
    }
}

/// What `Regex::new(pattern)` followed by `captures_iter(text)` gives: `None`
/// when the pattern does not compile; otherwise, for every successive
/// non-overlapping match, the byte offset where it starts and its groups.
pub uninterp spec fn spec_regex_captures_iter(pattern: Seq<char>, text: Seq<char>) -> Option<Seq<(nat, Seq<Option<Seq<char>>>)>>;

/// The views of matches with their starts.
pub open spec fn pos_caps_view(v: Seq<(usize, Vec<Option<String>>)>) -> Seq<(nat, Seq<Option<Seq<char>>>)> {
    v.map_values(|c: (usize, Vec<Option<String>>)| (c.0 as nat, opt_strs(c.1@)))
}

/// `regex::Regex::new` then `Regex::captures_iter`: for each match, the
/// start of group 0 and every group converted to an owned string.
#[verifier::external_body]
fn regex_captures_iter(pattern: &str, text: &str) -> (r: Option<Vec<(usize, Vec<Option<String>>)>>)
    ensures
        match r {
            None => spec_regex_captures_iter(pattern@, text@) is None,
            Some(v) => spec_regex_captures_iter(pattern@, text@) == Some(pos_caps_view(v@)),
        },
{
    match regex::Regex::new(pattern) {
        Ok(re) => Some(re.captures_iter(text).map(|c| (c.get(0).map_or(0, |m| m.start()), c.iter().map(|m| m.map(|m| m.as_str().to_string())).collect())).collect()),
        Err(_) => None,
    }
}

/// Every match of `pattern` in `text`, in order, with the byte offset
/// where it starts.
pub open spec fn spec_captures_pos(pattern: Seq<char>, text: Seq<char>) -> Seq<(nat, Seq<Option<Seq<char>>>)> {
    match spec_regex_captures_iter(pattern, text) {
        Some(v) => v,
        None => Seq::empty(),
    }
}

/// The capture groups of every match of `pattern` in `text`, in order.
pub open spec fn spec_captures_all(pattern: Seq<char>, text: Seq<char>) -> Seq<Seq<Option<Seq<char>>>> {
    spec_captures_pos(pattern, text).map_values(|x: (nat, Seq<Option<Seq<char>>>)| x.1)
}

/// Every match of `pattern` in `text` with the byte offset where it starts.
pub fn captures_pos(pattern: &str, text: &str) -> (r: Vec<(usize, Vec<Option<String>>)>)
    ensures
        pos_caps_view(r@) == spec_captures_pos(pattern@, text@),
{
    match regex_captures_iter(pattern, text) {
        Some(v) => v,
        None => {
            let v: Vec<(usize, Vec<Option<String>>)> = Vec::new();
            assert(pos_caps_view(v@) =~= Seq::<(nat, Seq<Option<Seq<char>>>)>::empty());
            v
        },
    }
}

/// The capture groups of every match of `pattern` in `text`.
pub fn captures_all(pattern: &str, text: &str) -> (r: Vec<Vec<Option<String>>>)
    ensures
        r@.map_values(|c: Vec<Option<String>>| opt_strs(c@)) == spec_captures_all(pattern@, text@),
{
    let mut v = captures_pos(pattern, text);
    let ghost all = pos_caps_view(v@);
    let mut out: Vec<Vec<Option<String>>> = Vec::new();
    let mut k: usize = 0;
    let n = v.len();
    assert(all.subrange(0, n as int) =~= all);
    assert(all.subrange(0, 0).map_values(|x: (nat, Seq<Option<Seq<char>>>)| x.1) =~= Seq::<Seq<Option<Seq<char>>>>::empty());
    assert(out@.map_values(|c: Vec<Option<String>>| opt_strs(c@)) =~= Seq::<Seq<Option<Seq<char>>>>::empty());
    while v.len() > 0
        invariant
            k + v@.len() == n,
            n == all.len(),
            pos_caps_view(v@) == all.subrange(k as int, n as int),
            out@.map_values(|c: Vec<Option<String>>| opt_strs(c@))
                == all.subrange(0, k as int).map_values(|x: (nat, Seq<Option<Seq<char>>>)| x.1),
        decreases v@.len(),
    {
        let ghost o0 = out@.map_values(|c: Vec<Option<String>>| opt_strs(c@));
        let ghost v0 = v@;
        let x = v.remove(0);
        assert(v@ =~= v0.remove(0));
        assert(pos_caps_view(v0)[0] == all[k as int]);
        assert(pos_caps_view(v0)[0] == (x.0 as nat, opt_strs(x.1@)));
        assert forall|j: int| 0 <= j < v@.len() implies pos_caps_view(v@)[j] == all.subrange(k + 1, n as int)[j] by {
            assert(v@[j] == v0[j + 1]);
            assert(pos_caps_view(v0)[j + 1] == all[k + 1 + j]);
        }
        assert(pos_caps_view(v@) =~= all.subrange(k + 1, n as int));
        out.push(x.1);
        assert(out@.map_values(|c: Vec<Option<String>>| opt_strs(c@)) =~= o0.push(all[k as int].1));
        assert(all.subrange(0, k + 1).map_values(|x: (nat, Seq<Option<Seq<char>>>)| x.1)
            =~= all.subrange(0, k as int).map_values(|x: (nat, Seq<Option<Seq<char>>>)| x.1).push(all[k as int].1));
        k = k + 1;
    }
    assert(all.subrange(0, n as int) =~= all);
    out
}

/// Group `k` of one match, if it took part.
pub open spec fn cap_group(c: Seq<Option<Seq<char>>>, k: int) -> Option<Seq<char>> {
    if 0 <= k < c.len() { c[k] } else { None }
}

/// Group `k` of one match.
pub fn cap_at(c: &Vec<Option<String>>, k: usize) -> (r: Option<String>)
    ensures
        match r {
            Some(s) => cap_group(opt_strs(c@), k as int) == Some(s@),
            None => cap_group(opt_strs(c@), k as int) is None,
        },
{
    if k < c.len() {
        match &c[k] {
            Some(s) => Some(s.clone()),
            None => None,
        }
    } else {
        None
    }
}

/// The characters that have a meaning in a regex:
/// `\ . + * ? ( ) | [ ] { } ^ $ # & - ~`.
pub open spec fn is_regex_meta(c: char) -> bool {
    c == '\\' || c == '.' || c == '+' || c == '*' || c == '?' || c == '(' || c == ')' || c == '|'
        || c == '[' || c == ']' || c == '{' || c == '}' || c == '^' || c == '$' || c == '#'
        || c == '&' || c == '-' || c == '~'
}

/// The text with a backslash before each regex metacharacter, so that it
/// matches itself literally.
pub open spec fn spec_regex_escape(text: Seq<char>) -> Seq<char>
    decreases text.len(),
{
    if text.len() == 0 {
        Seq::empty()
    } else {
        let c = text.last();
        spec_regex_escape(text.drop_last()) + if is_regex_meta(c) { seq!['\\', c] } else { seq![c] }
    }
}

/// `regex::escape`: each character of the text in turn, preceded by a
/// backslash when it is one of the metacharacters of [`is_regex_meta`].
#[verifier::external_body]
pub fn escape(text: &str) -> (r: String)
    ensures
        r@ == spec_regex_escape(text@),
{
    regex::escape(text)
}

/// What `Regex::new(pattern)` followed by `replace(text, rep)` gives:
/// `None` when the pattern does not compile; otherwise the text with its
/// leftmost match replaced by `rep` (with `$` group references expanded).
pub uninterp spec fn spec_regex_replace(pattern: Seq<char>, text: Seq<char>, rep: Seq<char>) -> Option<Seq<char>>;

/// `regex::Regex::new` then `Regex::replace`, the result owned.
#[verifier::external_body]
fn regex_replace(pattern: &str, text: &str, rep: &str) -> (r: Option<String>)
    ensures
        match r {
            Some(t) => spec_regex_replace(pattern@, text@, rep@) == Some(t@),
            None => spec_regex_replace(pattern@, text@, rep@) is None,
        },
{
    match regex::Regex::new(pattern) {
        Ok(re) => Some(re.replace(text, rep).into_owned()),
        Err(_) => None,
    }
}

/// The text with the leftmost match of `pattern` replaced by `rep`; the
/// text unchanged when the pattern does not compile.
pub open spec fn spec_replace_first(pattern: Seq<char>, text: Seq<char>, rep: Seq<char>) -> Seq<char> {
    match spec_regex_replace(pattern, text, rep) {
        Some(t) => t,
        None => text,
    }
}

/// Replaces the leftmost match of `pattern` in `text` by `rep`.
pub fn replace_first(pattern: &str, text: &str, rep: &str) -> (r: String)
    ensures
        r@ == spec_replace_first(pattern@, text@, rep@),
{
    match regex_replace(pattern, text, rep) {
        Some(t) => t,
        None => crate::text::owned(text),
    }
}

/// Whether `pattern` matches `text`, taking a pattern that does not
/// compile as matching.
pub fn match_if_valid(pattern: &str, text: &str) -> (r: bool)
    ensures
        r == (spec_regex_is_match(pattern@, text@) != Some(false)),
{
    match regex_is_match(pattern, text) {
        Some(b) => b,
        None => true,
    }
}

/// What `Regex::new(pattern)` followed by `split(text)` gives: `None` when
/// the pattern does not compile; otherwise the pieces of `text` between
/// successive matches, in order.
pub uninterp spec fn spec_regex_split(pattern: Seq<char>, text: Seq<char>) -> Option<Seq<Seq<char>>>;

/// `regex::Regex::new` then `Regex::split`, each piece converted to an
/// owned string.
#[verifier::external_body]
fn regex_split(pattern: &str, text: &str) -> (r: Option<Vec<String>>)
    ensures
        match r {
            None => spec_regex_split(pattern@, text@) is None,
            Some(v) => spec_regex_split(pattern@, text@) == Some(crate::text::strs(v@)),
        },
{
    match regex::Regex::new(pattern) {
        Ok(re) => Some(re.split(text).map(|p| p.to_string()).collect()),
        Err(_) => None,
    }
}

/// The pieces of `text` between the matches of `pattern` (the whole text
/// when the pattern does not compile).
pub open spec fn spec_split_pieces(pattern: Seq<char>, text: Seq<char>) -> Seq<Seq<char>> {
    match spec_regex_split(pattern, text) {
        Some(v) => v,
        None => seq![text],
    }
}

/// The pieces of `text` between the matches of `pattern`.
pub fn split_pieces(pattern: &str, text: &str) -> (r: Vec<String>)
    ensures
        crate::text::strs(r@) == spec_split_pieces(pattern@, text@),
{
    match regex_split(pattern, text) {
        Some(v) => v,
        None => {
            let mut v: Vec<String> = Vec::new();
            v.push(crate::text::owned(text));
            assert(crate::text::strs(v@) =~= seq![text@]);
            v
        },
    }
}

/// Replacement number `k`, empty when there is none.
pub open spec fn rep_at(reps: Seq<Seq<char>>, k: int) -> Seq<char> {
    if 0 <= k < reps.len() { reps[k] } else { Seq::empty() }
}

/// The pieces between matches with the replacement of each match put back
/// between them: `p0 + r0 + p1 + r1 + ... + pn`.
pub open spec fn weave(pieces: Seq<Seq<char>>, reps: Seq<Seq<char>>) -> Seq<char>
    decreases pieces.len(),
{
    if pieces.len() == 0 {
        Seq::empty()
    } else {
        let n = pieces.len() - 1;
        weave(pieces.drop_last(), reps) + (if n >= 1 { rep_at(reps, n - 1) } else { Seq::empty() }) + pieces.last()
    }
}

/// The pieces between matches and the replacements of the matches woven
/// back together.
pub fn weave_exec(pieces: &Vec<String>, reps: &Vec<String>) -> (r: String)
    ensures
        r@ == weave(crate::text::strs(pieces@), crate::text::strs(reps@)),
{
    let ghost pv = crate::text::strs(pieces@);
    let ghost rv = crate::text::strs(reps@);
    let mut out = String::new();
    let mut i: usize = 0;
    assert(pv.subrange(0, 0) =~= Seq::<Seq<char>>::empty());
    while i < pieces.len()
        invariant
            i <= pieces@.len(),
            pv == crate::text::strs(pieces@),
            rv == crate::text::strs(reps@),
            out@ == weave(pv.subrange(0, i as int), rv),
        decreases pieces@.len() - i,
    {
        let ghost sub = pv.subrange(0, i + 1);
        assert(sub.drop_last() =~= pv.subrange(0, i as int));
        assert(sub.last() == pieces@[i as int]@);
        if i >= 1 && i - 1 < reps.len() {
            crate::text::push_str(&mut out, reps[i - 1].as_str());
        }
        crate::text::push_str(&mut out, pieces[i].as_str());
        assert(out@ =~= weave(sub, rv));
        i = i + 1;
    }
    assert(pv.subrange(0, pieces@.len() as int) =~= pv);
    out
}

} // verus!
