//! Analysis of the links between documents.

use vstd::prelude::*;
use crate::text::{
    chars_of, concat2, contains_char, ends_with, lines, owned, spec_contains, spec_ends_with, spec_lines,
    spec_split, spec_starts_with, spec_to_lowercase, spec_trim, split, starts_with, str_eq, string_of, strs,
    to_lowercase, trim, views, find,
};
use crate::patterns::{cap_at, captures_all, opt_strs, spec_captures_all, RE_MD_LINK, RE_WIKI_LINK};
use crate::links::group_or_empty;

verus! {

/// State of a link.
#[derive(Debug, Clone, Copy, PartialEq, Eq, Structural)]
pub enum LinkStatus {
    Valid,
    Broken,
    External,
    Circular,
    NonStandard,
}

/// A link found in a document.
#[derive(Debug, Clone)]
pub struct Link {
    pub source: String,
    pub target: String,
    pub line: usize,
    pub status: LinkStatus,
    pub normalized: Option<String>,
}

impl Link {
    pub fn is_broken(&self) -> (r: bool)
        ensures
            r == (self.status == LinkStatus::Broken),
    {
        self.status == LinkStatus::Broken
    }

    pub fn is_circular(&self) -> (r: bool)
        ensures
            r == (self.status == LinkStatus::Circular),
    {
        self.status == LinkStatus::Circular
    }

    pub fn is_nonstandard(&self) -> (r: bool)
        ensures
            r == (self.status == LinkStatus::NonStandard),
    {
        self.status == LinkStatus::NonStandard
    }
}

/// Outcome of a link analysis.
#[derive(Debug, Clone)]
pub struct LinksResult {
    pub links: Vec<Link>,
    pub total_valid: usize,
    pub total_broken: usize,
    pub total_external: usize,
    pub total_circular: usize,
    pub total_nonstandard: usize,
}

/// Number of links in a state.
pub open spec fn count_status(ls: Seq<Link>, s: LinkStatus) -> nat {
    ls.filter(|l: Link| l.status == s).len()
}

/// The links behind references.
pub open spec fn link_derefs(v: Seq<&Link>) -> Seq<Link> {
    v.map_values(|l: &Link| *l)
}

impl LinksResult {
    /// The counters agree with the links.
    pub open spec fn wf(&self) -> bool {
        &&& self.total_valid == count_status(self.links@, LinkStatus::Valid)
        &&& self.total_broken == count_status(self.links@, LinkStatus::Broken)
        &&& self.total_external == count_status(self.links@, LinkStatus::External)
        &&& self.total_circular == count_status(self.links@, LinkStatus::Circular)
        &&& self.total_nonstandard == count_status(self.links@, LinkStatus::NonStandard)
    }

    pub fn new() -> (r: LinksResult)
        ensures
            r.wf(),
            r.links@.len() == 0,
    {
        let r = LinksResult {
            links: Vec::new(),
            total_valid: 0,
            total_broken: 0,
            total_external: 0,
            total_circular: 0,
            total_nonstandard: 0,
        };
        proof {
            reveal_with_fuel(Seq::<_>::filter, 1);
        }
        r
    }

    /// Records a link, counting it under its state.
    pub fn add_link(&mut self, link: Link)
        requires
            old(self).links@.len() < usize::MAX,
            old(self).wf(),
        ensures
            final(self).wf(),
            final(self).links@ == old(self).links@.push(link),
    {
        let ghost before = self.links@;
        proof {
            reveal_with_fuel(Seq::<_>::filter, 1);
            assert(before.push(link).drop_last() =~= before);
            before.lemma_filter_len(|l: Link| l.status == link.status);
        }
        match link.status {
            LinkStatus::Valid => { self.total_valid = self.total_valid + 1; },
            LinkStatus::Broken => { self.total_broken = self.total_broken + 1; },
            LinkStatus::External => { self.total_external = self.total_external + 1; },
            LinkStatus::Circular => { self.total_circular = self.total_circular + 1; },
            LinkStatus::NonStandard => { self.total_nonstandard = self.total_nonstandard + 1; },
        }
        self.links.push(link);
    }

    /// The broken links, in order.
    pub fn broken_links(&self) -> (r: Vec<&Link>)
        ensures
            link_derefs(r@) == self.links@.filter(|l: Link| l.status == LinkStatus::Broken),
    {
        let mut r: Vec<&Link> = Vec::new();
        let mut i: usize = 0;
        while i < self.links.len()
            invariant
                i <= self.links@.len(),
                link_derefs(r@) == self.links@.subrange(0, i as int).filter(|l: Link| l.status == LinkStatus::Broken),
            decreases self.links@.len() - i,
        {
            proof {
                let sub = self.links@.subrange(0, i + 1);
                assert(sub.drop_last() =~= self.links@.subrange(0, i as int));
                reveal_with_fuel(Seq::<_>::filter, 1);
            }
            if self.links[i].is_broken() {
                let ghost r0 = link_derefs(r@);
                r.push(&self.links[i]);
                assert(link_derefs(r@) =~= r0.push(self.links@[i as int]));
            }
            i = i + 1;
        }
        assert(self.links@.subrange(0, self.links@.len() as int) =~= self.links@);
        r
    }
}

impl Default for LinksResult {
    fn default() -> (r: LinksResult)
        ensures
            r.wf(),
            r.links@.len() == 0,
    {
        LinksResult::new()
    }
}

/// Options of the links command.
#[derive(Debug, Clone)]
pub struct LinksCommand {
    pub path: Option<String>,
    pub broken_only: bool,
    pub fix: bool,
    pub include_external: bool,
}

/// The name a link target points to: its last path component, without
/// any `|alias`, trimmed.
pub open spec fn target_name(target: Seq<char>) -> Seq<char> {
    spec_trim(spec_split(spec_split(target, '/').last(), '|')[0])
}

/// The state of a link, given the stem of its source, whether its target
/// resolves to an existing path (as given or with `.md`), and the stems
/// and paths of all documents: circular when it points to its own
/// document; valid when it resolves, or when some stem equals or ends with
/// the (lower-cased) target name, or starts with it when it starts with a
/// digit, or some path contains it; broken otherwise.
pub open spec fn spec_link_status(
    source_stem: Seq<char>,
    target: Seq<char>,
    resolves: bool,
    stems: Seq<Seq<char>>,
    paths: Seq<Seq<char>>,
) -> LinkStatus {
    let tl = spec_to_lowercase(target_name(target));
    if target == source_stem || spec_ends_with(target, "/"@ + source_stem) {
        LinkStatus::Circular
    } else if resolves {
        LinkStatus::Valid
    } else if exists|k: int| 0 <= k < stems.len() && stem_matches(spec_to_lowercase(#[trigger] stems[k]), tl) {
        LinkStatus::Valid
    } else if exists|k: int| 0 <= k < paths.len() && spec_contains(spec_to_lowercase(#[trigger] paths[k]), tl) {
        LinkStatus::Valid
    } else {
        LinkStatus::Broken
    }
}

/// A (lower-cased) stem designates a (lower-cased) target name.
pub open spec fn stem_matches(name: Seq<char>, t: Seq<char>) -> bool {
    name == t || spec_ends_with(name, t)
        || (t.len() > 0 && is_numeric_char(t[0]) && spec_starts_with(name, t))
}

/// A decimal digit, as `char::is_numeric` sees the ASCII range.
pub open spec fn is_numeric_char(c: char) -> bool {
    '0' <= c && c <= '9'
}

/// The name a link target points to.
pub fn link_target_name(target: &str) -> (r: String)
    ensures
        r@ == target_name(target@),
{
    let parts = split(&chars_of(target), '/');
    proof {
        crate::text::lemma_split_nonempty(target@, '/');
    }
    let last = &parts[parts.len() - 1];
    let pieces = split(last.as_slice(), '|');
    proof {
        crate::text::lemma_split_nonempty(last@, '|');
    }
    proof {
        assert(views(parts@).last() == last@);
        assert(views(pieces@)[0] == pieces@[0]@);
    }
    string_of(&trim(pieces[0].as_slice()))
}

impl LinksCommand {
    /// The state of a link (see [`spec_link_status`]).
    pub fn check_link_status(
        &self,
        source_stem: &str,
        target: &str,
        resolves: bool,
        stems: &Vec<String>,
        paths: &Vec<String>,
    ) -> (r: LinkStatus)
        ensures
            r == spec_link_status(source_stem@, target@, resolves, strs(stems@), strs(paths@)),
    {
        let tv = chars_of(target);
        if str_eq(target, source_stem) || ends_with(&tv, &chars_of(concat2("/", source_stem).as_str())) {
            return LinkStatus::Circular;
        }
        if resolves {
            return LinkStatus::Valid;
        }
        let tl = to_lowercase(link_target_name(target).as_str());
        let tlv = chars_of(tl.as_str());
        let mut k: usize = 0;
        while k < stems.len()
            invariant
                k <= stems@.len(),
                !resolves,
                !(target@ == source_stem@ || spec_ends_with(target@, "/"@ + source_stem@)),
                tlv@ == spec_to_lowercase(target_name(target@)),
                forall|j: int| 0 <= j < k ==> !stem_matches(spec_to_lowercase(#[trigger] strs(stems@)[j]), tlv@),
            decreases stems@.len() - k,
        {
            let nl = to_lowercase(stems[k].as_str());
            let nv = chars_of(nl.as_str());
            let numeric = tlv.len() > 0 && '0' <= tlv[0] && tlv[0] <= '9';
            proof {
                assert(strs(stems@)[k as int] == stems@[k as int]@);
            }
            if crate::text::seq_eq(&nv, &tlv) || ends_with(&nv, &tlv) || (numeric && starts_with(&nv, &tlv)) {
                assert(stem_matches(spec_to_lowercase(strs(stems@)[k as int]), tlv@));
                return LinkStatus::Valid;
            }
            k = k + 1;
        }
        let mut p: usize = 0;
        while p < paths.len()
            invariant
                p <= paths@.len(),
                !resolves,
                !(target@ == source_stem@ || spec_ends_with(target@, "/"@ + source_stem@)),
                forall|j: int| 0 <= j < stems@.len() ==> !stem_matches(spec_to_lowercase(#[trigger] strs(stems@)[j]), tlv@),
                tlv@ == spec_to_lowercase(target_name(target@)),
                forall|j: int| 0 <= j < p ==> !spec_contains(spec_to_lowercase(#[trigger] strs(paths@)[j]), tlv@),
            decreases paths@.len() - p,
        {
            let pl = to_lowercase(paths[p].as_str());
            proof {
                assert(strs(paths@)[p as int] == paths@[p as int]@);
            }
            if find(&chars_of(pl.as_str()), &tlv).is_some() {
                assert(spec_contains(spec_to_lowercase(strs(paths@)[p as int]), tlv@));
                return LinkStatus::Valid;
            }
            p = p + 1;
        }
        LinkStatus::Broken
    }

    /// Whether some document stem equals the name, case-insensitively.
    pub fn file_exists(&self, name: &str, stems: &Vec<String>) -> (r: bool)
        ensures
            r == exists|k: int| 0 <= k < stems@.len()
                && spec_to_lowercase(#[trigger] strs(stems@)[k]) == spec_to_lowercase(name@),
    {
        let nl = to_lowercase(name);
        let mut k: usize = 0;
        while k < stems.len()
            invariant
                k <= stems@.len(),
                nl@ == spec_to_lowercase(name@),
                forall|j: int| 0 <= j < k ==> spec_to_lowercase(#[trigger] strs(stems@)[j]) != nl@,
            decreases stems@.len() - k,
        {
            proof {
                assert(strs(stems@)[k as int] == stems@[k as int]@);
            }
            if str_eq(to_lowercase(stems[k].as_str()).as_str(), nl.as_str()) {
                return true;
            }
            k = k + 1;
        }
        false
    }
}

/// A link target found in a document: the target text, its line (counted
/// from 1), and whether it is a wiki link (`[[target]]`) or a Markdown link
/// (`[text](target)`).
#[derive(Debug, Clone)]
pub struct LinkTarget {
    pub target: String,
    pub line: usize,
    pub wiki: bool,
}

/// A target as (text, line, wiki link).
pub type TargetView = (Seq<char>, nat, bool);

pub open spec fn target_view(t: LinkTarget) -> TargetView {
    (t.target@, t.line as nat, t.wiki)
}

pub open spec fn targets_view(v: Seq<LinkTarget>) -> Seq<TargetView> {
    v.map_values(|t: LinkTarget| target_view(t))
}

/// The targets of the matches on one line: group `k` of each match.
pub open spec fn match_targets(caps: Seq<Seq<Option<Seq<char>>>>, k: int, line: nat, wiki: bool) -> Seq<TargetView> {
    caps.map_values(|c: Seq<Option<Seq<char>>>| (group_or_empty(c, k), line, wiki))
}

/// The targets of the lines `ls[..n]`: on each line, its wiki links, then
/// its Markdown links, each in the order they occur.
pub open spec fn targets_upto(ls: Seq<Seq<char>>, n: nat) -> Seq<TargetView>
    decreases n,
{
    if n == 0 {
        Seq::empty()
    } else {
        targets_upto(ls, (n - 1) as nat)
            + match_targets(spec_captures_all(RE_WIKI_LINK@, ls[n - 1]), 1, n, true)
            + match_targets(spec_captures_all(RE_MD_LINK@, ls[n - 1]), 2, n, false)
    }
}

/// The link targets of a document, line by line.
pub open spec fn spec_link_targets(content: Seq<char>) -> Seq<TargetView> {
    targets_upto(spec_lines(content), spec_lines(content).len())
}

/// A link as (source, target, line, state, normalized name).
pub type LinkView = (Seq<char>, Seq<char>, nat, LinkStatus, Option<Seq<char>>);

pub open spec fn link_view(l: Link) -> LinkView {
    (l.source@, l.target@, l.line as nat, l.status, match l.normalized { Some(n) => Some(n@), None => None })
}

pub open spec fn links_view(v: Seq<Link>) -> Seq<LinkView> {
    v.map_values(|l: Link| link_view(l))
}

/// An `http://` or `https://` target.
pub open spec fn is_external(t: Seq<char>) -> bool {
    spec_starts_with(t, "http://"@) || spec_starts_with(t, "https://"@)
}

/// The links of a document's targets: a wiki link with a path is
/// non-standard and keeps the name it points to; an external Markdown link
/// is listed as external when external links are asked for, and left out
/// otherwise; any other link gets its state from [`spec_link_status`],
/// `resolves[i]` telling whether the `i`-th target resolves on disk.
pub open spec fn spec_classify(
    cmd: LinksCommand,
    source: Seq<char>,
    source_stem: Seq<char>,
    ts: Seq<TargetView>,
    resolves: Seq<bool>,
    stems: Seq<Seq<char>>,
    paths: Seq<Seq<char>>,
) -> Seq<LinkView>
    decreases ts.len(),
{
    if ts.len() == 0 {
        Seq::empty()
    } else {
        let prev = spec_classify(cmd, source, source_stem, ts.drop_last(), resolves, stems, paths);
        let t = ts.last();
        let r = resolves[ts.len() - 1];
        if t.2 {
            if t.0.contains('/') {
                prev.push((source, t.0, t.1, LinkStatus::NonStandard, Some(target_name(t.0))))
            } else {
                prev.push((source, t.0, t.1, spec_link_status(source_stem, t.0, r, stems, paths), None))
            }
        } else if is_external(t.0) {
            if cmd.include_external { prev.push((source, t.0, t.1, LinkStatus::External, None)) } else { prev }
        } else {
            prev.push((source, t.0, t.1, spec_link_status(source_stem, t.0, r, stems, paths), None))
        }
    }
}

/// The documents to scan, as (path, stem, targets, whether each target
/// resolves on disk).
pub type ScanDoc = (String, String, Vec<LinkTarget>, Vec<bool>);

/// The links of the documents, one after another.
pub open spec fn spec_scan(cmd: LinksCommand, docs: Seq<ScanDoc>, stems: Seq<Seq<char>>, paths: Seq<Seq<char>>) -> Seq<LinkView>
    decreases docs.len(),
{
    if docs.len() == 0 {
        Seq::empty()
    } else {
        let d = docs.last();
        spec_scan(cmd, docs.drop_last(), stems, paths)
            + spec_classify(cmd, d.0@, d.1@, targets_view(d.2@), d.3@, stems, paths)
    }
}

/// Number of targets of the documents.
pub open spec fn total_targets(docs: Seq<ScanDoc>) -> nat
    decreases docs.len(),
{
    if docs.len() == 0 { 0 } else { total_targets(docs.drop_last()) + docs.last().2@.len() }
}

proof fn lemma_classify_len(cmd: LinksCommand, source: Seq<char>, stem: Seq<char>, ts: Seq<TargetView>, res: Seq<bool>,
    stems: Seq<Seq<char>>, paths: Seq<Seq<char>>)
    ensures
        spec_classify(cmd, source, stem, ts, res, stems, paths).len() <= ts.len(),
    decreases ts.len(),
{
    if ts.len() > 0 {
        lemma_classify_len(cmd, source, stem, ts.drop_last(), res, stems, paths);
    }
}

/// The targets of the matches of one line, appended to `out`.
fn push_targets(out: &mut Vec<LinkTarget>, line: &Vec<char>, pattern: &str, k: usize, line_no: usize, wiki: bool)
    ensures
        targets_view(final(out)@) == targets_view(old(out)@)
            + match_targets(spec_captures_all(pattern@, line@), k as int, line_no as nat, wiki),
{
    let caps = captures_all(pattern, string_of(line.as_slice()).as_str());
    let ghost cv = spec_captures_all(pattern@, line@);
    let ghost o0 = targets_view(out@);
    let mut j: usize = 0;
    while j < caps.len()
        invariant
            j <= caps@.len(),
            caps@.map_values(|c: Vec<Option<String>>| opt_strs(c@)) == cv,
            cv == spec_captures_all(pattern@, line@),
            targets_view(out@) == o0 + match_targets(cv.subrange(0, j as int), k as int, line_no as nat, wiki),
        decreases caps@.len() - j,
    {
        assert(cv[j as int] == opt_strs(caps@[j as int]@));
        let target = match cap_at(&caps[j], k) {
            Some(t) => t,
            None => String::new(),
        };
        let ghost before = targets_view(out@);
        out.push(LinkTarget { target, line: line_no, wiki });
        assert(targets_view(out@) =~= before.push((group_or_empty(cv[j as int], k as int), line_no as nat, wiki)));
        assert(match_targets(cv.subrange(0, j + 1), k as int, line_no as nat, wiki)
            =~= match_targets(cv.subrange(0, j as int), k as int, line_no as nat, wiki)
                .push((group_or_empty(cv[j as int], k as int), line_no as nat, wiki)));
        j = j + 1;
    }
    assert(cv.subrange(0, caps@.len() as int) =~= cv);
}

/// The link targets of a document: line by line, its wiki links
/// (`[[target]]`), then its Markdown links (`[text](target)`).
pub fn link_targets(content: &str) -> (r: Vec<LinkTarget>)
    ensures
        targets_view(r@) == spec_link_targets(content@),
{
    let ls = lines(&chars_of(content));
    let ghost lv = views(ls@);
    let mut out: Vec<LinkTarget> = Vec::new();
    let mut i: usize = 0;
    assert(targets_view(out@) =~= targets_upto(lv, 0));
    while i < ls.len()
        invariant
            i <= ls@.len(),
            lv == views(ls@),
            lv == spec_lines(content@),
            targets_view(out@) == targets_upto(lv, i as nat),
        decreases ls@.len() - i,
    {
        assert(lv[i as int] == ls@[i as int]@);
        push_targets(&mut out, &ls[i], RE_WIKI_LINK, 1, i + 1, true);
        push_targets(&mut out, &ls[i], RE_MD_LINK, 2, i + 1, false);
        i = i + 1;
    }
    out
}

impl LinksCommand {
    /// Adds the links of one document's targets to `result`.
    fn classify_into(
        &self,
        result: &mut LinksResult,
        source: &str,
        source_stem: &str,
        targets: &Vec<LinkTarget>,
        resolves: &Vec<bool>,
        stems: &Vec<String>,
        paths: &Vec<String>,
    )
        requires
            old(result).wf(),
            resolves@.len() == targets@.len(),
            old(result).links@.len() + targets@.len() < usize::MAX,
        ensures
            final(result).wf(),
            links_view(final(result).links@) == links_view(old(result).links@)
                + spec_classify(*self, source@, source_stem@, targets_view(targets@), resolves@, strs(stems@), strs(paths@)),
    {
        let ghost tv = targets_view(targets@);
        let ghost l0 = links_view(result.links@);
        let ghost n0 = result.links@.len();
        let mut i: usize = 0;
        assert(tv.subrange(0, 0) =~= Seq::<TargetView>::empty());
        assert(l0 + spec_classify(*self, source@, source_stem@, tv.subrange(0, 0), resolves@, strs(stems@), strs(paths@)) =~= l0);
        while i < targets.len()
            invariant
                i <= targets@.len(),
                resolves@.len() == targets@.len(),
                tv == targets_view(targets@),
                result.wf(),
                n0 + targets@.len() < usize::MAX,
                result.links@.len() <= n0 + i,
                links_view(result.links@) == l0
                    + spec_classify(*self, source@, source_stem@, tv.subrange(0, i as int), resolves@, strs(stems@), strs(paths@)),
            decreases targets@.len() - i,
        {
            let ghost sub = tv.subrange(0, i + 1);
            assert(sub.drop_last() =~= tv.subrange(0, i as int));
            assert(sub.last() == target_view(targets@[i as int]));
            let ghost before = links_view(result.links@);
            let t = &targets[i];
            let tc = chars_of(t.target.as_str());
            if t.wiki {
                if contains_char(&tc, '/') {
                    let link = Link {
                        source: owned(source),
                        target: owned(t.target.as_str()),
                        line: t.line,
                        status: LinkStatus::NonStandard,
                        normalized: Some(link_target_name(t.target.as_str())),
                    };
                    result.add_link(link);
                    assert(links_view(result.links@) =~= before.push(link_view(result.links@.last())));
                } else {
                    let st = self.check_link_status(source_stem, t.target.as_str(), resolves[i], stems, paths);
                    let link = Link { source: owned(source), target: owned(t.target.as_str()), line: t.line, status: st, normalized: None };
                    result.add_link(link);
                    assert(links_view(result.links@) =~= before.push(link_view(result.links@.last())));
                }
            } else if starts_with(&tc, &chars_of("http://")) || starts_with(&tc, &chars_of("https://")) {
                if self.include_external {
                    let link = Link { source: owned(source), target: owned(t.target.as_str()), line: t.line, status: LinkStatus::External, normalized: None };
                    result.add_link(link);
                    assert(links_view(result.links@) =~= before.push(link_view(result.links@.last())));
                }
            } else {
                let st = self.check_link_status(source_stem, t.target.as_str(), resolves[i], stems, paths);
                let link = Link { source: owned(source), target: owned(t.target.as_str()), line: t.line, status: st, normalized: None };
                result.add_link(link);
                assert(links_view(result.links@) =~= before.push(link_view(result.links@.last())));
            }
            i = i + 1;
        }
        assert(tv.subrange(0, targets@.len() as int) =~= tv);
    }

    /// The links of one document (path and stem) from its targets, given
    /// whether each target resolves on disk, and the stems and paths of all
    /// documents; the totals count the links by state.
    pub fn classify(
        &self,
        source: &str,
        source_stem: &str,
        targets: &Vec<LinkTarget>,
        resolves: &Vec<bool>,
        stems: &Vec<String>,
        paths: &Vec<String>,
    ) -> (r: LinksResult)
        requires
            resolves@.len() == targets@.len(),
            targets@.len() < usize::MAX,
        ensures
            r.wf(),
            links_view(r.links@)
                == spec_classify(*self, source@, source_stem@, targets_view(targets@), resolves@, strs(stems@), strs(paths@)),
    {
        let mut r = LinksResult::new();
        assert(links_view(r.links@) =~= Seq::<LinkView>::empty());
        self.classify_into(&mut r, source, source_stem, targets, resolves, stems, paths);
        assert(links_view(r.links@) =~= spec_classify(*self, source@, source_stem@, targets_view(targets@), resolves@, strs(stems@), strs(paths@)));
        r
    }

    /// The link analysis of the documents (see [`spec_scan`]): the links of
    /// each document in turn, and their totals by state.
    pub fn scan(&self, docs: &Vec<ScanDoc>, stems: &Vec<String>, paths: &Vec<String>) -> (r: LinksResult)
        requires
            forall|k: int| 0 <= k < docs@.len() ==> (#[trigger] docs@[k]).3@.len() == docs@[k].2@.len(),
            total_targets(docs@) < usize::MAX,
        ensures
            r.wf(),
            links_view(r.links@) == spec_scan(*self, docs@, strs(stems@), strs(paths@)),
    {
        let mut r = LinksResult::new();
        let mut i: usize = 0;
        assert(links_view(r.links@) =~= Seq::<LinkView>::empty());
        assert(docs@.subrange(0, 0) =~= Seq::<ScanDoc>::empty());
        while i < docs.len()
            invariant
                i <= docs@.len(),
                forall|k: int| 0 <= k < docs@.len() ==> (#[trigger] docs@[k]).3@.len() == docs@[k].2@.len(),
                total_targets(docs@) < usize::MAX,
                r.wf(),
                r.links@.len() <= total_targets(docs@.subrange(0, i as int)),
                links_view(r.links@) == spec_scan(*self, docs@.subrange(0, i as int), strs(stems@), strs(paths@)),
            decreases docs@.len() - i,
        {
            let ghost sub = docs@.subrange(0, i + 1);
            assert(sub.drop_last() =~= docs@.subrange(0, i as int));
            assert(sub.last() == docs@[i as int]);
            proof {
                lemma_total_prefix(docs@, i as int + 1);
            }
            let d = &docs[i];
            assert(total_targets(sub) == total_targets(docs@.subrange(0, i as int)) + docs@[i as int].2@.len());
            self.classify_into(&mut r, d.0.as_str(), d.1.as_str(), &d.2, &d.3, stems, paths);
            proof {
                lemma_classify_len(*self, d.0@, d.1@, targets_view(d.2@), d.3@, strs(stems@), strs(paths@));
                assert(links_view(r.links@).len() == r.links@.len());
            }
            i = i + 1;
        }
        assert(docs@.subrange(0, docs@.len() as int) =~= docs@);
        r
    }
}

proof fn lemma_total_prefix(docs: Seq<ScanDoc>, k: int)
    requires
        0 <= k <= docs.len(),
    ensures
        total_targets(docs.subrange(0, k)) <= total_targets(docs),
    decreases docs.len() - k,
{
    if k < docs.len() {
        lemma_total_prefix(docs, k + 1);
        assert(docs.subrange(0, k + 1).drop_last() =~= docs.subrange(0, k));
    } else {
        assert(docs.subrange(0, k) =~= docs);
    }
}

} // verus!
