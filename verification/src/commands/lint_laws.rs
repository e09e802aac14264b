//! When a document needs repair, why a second repair of a repaired
//! document changes nothing, and what the heading rule L002 looks at.

use vstd::prelude::*;
use crate::commands::lint::{collapse, fixed_lines, hashes, is_fence, lines_changed, rule_l002_scan, spec_fix};
use crate::text::{
    lemma_find_from, occurs_at, spec_find, spec_trim_start, spec_is_whitespace, spec_lines, spec_split, spec_strip_cr, spec_trim_end,
};
use crate::yaml::lemma_find_from_at;

verus! {

/// Each line followed by a line break.
pub open spec fn joined(ls: Seq<Seq<char>>) -> Seq<char>
    decreases ls.len(),
{
    if ls.len() == 0 { Seq::empty() } else { joined(ls.drop_last()) + ls.last() + seq!['\n'] }
}

/// No line holds a line break.
pub open spec fn no_breaks(ls: Seq<Seq<char>>) -> bool {
    forall|i: int| 0 <= i < ls.len() ==> !(#[trigger] ls[i]).contains('\n')
}

/// No line ends in whitespace.
pub open spec fn all_trimmed(ls: Seq<Seq<char>>) -> bool {
    forall|i: int| 0 <= i < ls.len() ==> ((#[trigger] ls[i]).len() == 0 || !spec_is_whitespace(ls[i].last()))
}

proof fn lemma_joined_front(ls: Seq<Seq<char>>)
    requires
        ls.len() >= 1,
    ensures
        joined(ls) == ls[0] + seq!['\n'] + joined(ls.drop_first()),
    decreases ls.len(),
{
    if ls.len() == 1 {
        assert(ls.drop_last() =~= Seq::<Seq<char>>::empty());
        assert(ls.drop_first() =~= Seq::<Seq<char>>::empty());
        assert(joined(ls) =~= ls[0] + seq!['\n'] + joined(ls.drop_first()));
    } else {
        lemma_joined_front(ls.drop_last());
        assert(ls.drop_last().drop_first() =~= ls.drop_first().drop_last());
        assert(ls.drop_first().last() == ls.last());
        assert(joined(ls) =~= ls[0] + seq!['\n'] + joined(ls.drop_first()));
    }
}

proof fn lemma_split_joined(ls: Seq<Seq<char>>)
    requires
        no_breaks(ls),
    ensures
        spec_split(joined(ls), '\n') == ls.push(Seq::empty()),
    decreases ls.len(),
{
    let nl = seq!['\n'];
    if ls.len() == 0 {
        lemma_find_from(joined(ls), nl, 0);
        assert(spec_split(joined(ls), '\n') =~= ls.push(Seq::empty()));
    } else {
        lemma_joined_front(ls);
        let s = joined(ls);
        let x = ls[0];
        let rest = ls.drop_first();
        assert(no_breaks(rest)) by {
            assert forall|i: int| 0 <= i < rest.len() implies !(#[trigger] rest[i]).contains('\n') by {
                assert(rest[i] == ls[i + 1]);
            }
        }
        assert(!x.contains('\n'));
        assert(s.subrange(x.len() as int, x.len() as int + 1) =~= nl);
        assert forall|j: int| 0 <= j < x.len() implies !occurs_at(s, nl, j) by {
            assert(s.subrange(j, j + 1)[0] == x[j]);
        }
        lemma_find_from_at(s, nl, 0, x.len() as int);
        assert(s.subrange(0, x.len() as int) =~= x);
        assert(s.subrange(x.len() as int + 1, s.len() as int) =~= joined(rest));
        lemma_split_joined(rest);
        assert(spec_split(s, '\n') =~= seq![x] + rest.push(Seq::empty()));
        assert(seq![x] + rest.push(Seq::empty()) =~= ls.push(Seq::empty()));
    }
}

proof fn lemma_lines_joined(ls: Seq<Seq<char>>)
    requires
        no_breaks(ls),
        all_trimmed(ls),
    ensures
        spec_lines(joined(ls)) == ls,
{
    lemma_split_joined(ls);
    assert(ls.push(Seq::<char>::empty()).drop_last() =~= ls);
    assert forall|i: int| 0 <= i < ls.len() implies spec_strip_cr(#[trigger] ls[i]) == ls[i] by {
        if ls[i].len() > 0 {
            assert(!spec_is_whitespace(ls[i].last()));
            assert(ls[i].last() != '\r');
        }
    }
    assert(ls.map_values(|l: Seq<char>| spec_strip_cr(l)) =~= ls);
}

/// The pieces of a split hold no separator.
proof fn lemma_split_pieces(s: Seq<char>)
    ensures
        no_breaks(spec_split(s, '\n')),
        spec_split(s, '\n').len() >= 1,
        s.len() > 0 ==> spec_split(s, '\n').len() >= 2 || spec_split(s, '\n')[0].len() > 0,
    decreases s.len(),
{
    let nl = seq!['\n'];
    lemma_find_from(s, nl, 0);
    match spec_find(s, nl) {
        Some(i) => {
            if 0 <= i < s.len() {
                let x = s.subrange(0, i);
                let rest = s.subrange(i + 1, s.len() as int);
                lemma_split_pieces(rest);
                let r = spec_split(rest, '\n');
                assert(!x.contains('\n')) by {
                    if x.contains('\n') {
                        let j = choose|j: int| 0 <= j < x.len() && x[j] == '\n';
                        assert(x[j] == s[j]);
                        assert(s.subrange(j, j + 1) =~= nl);
                        assert(occurs_at(s, nl, j));
                    }
                }
                let all = spec_split(s, '\n');
                assert(all =~= seq![x] + r);
                assert forall|k: int| 0 <= k < all.len() implies !(#[trigger] all[k]).contains('\n') by {
                    if k > 0 {
                        assert(all[k] == r[k - 1]);
                    }
                }
            }
        },
        None => {
            assert(!s.contains('\n')) by {
                if s.contains('\n') {
                    let j = choose|j: int| 0 <= j < s.len() && s[j] == '\n';
                    assert(s.subrange(j, j + 1) =~= nl);
                    assert(occurs_at(s, nl, j));
                }
            }
        },
    }
}

/// `trim_end` keeps a prefix that ends in no whitespace.
proof fn lemma_trim_end_prefix(s: Seq<char>)
    ensures
        spec_trim_end(s) == s.subrange(0, spec_trim_end(s).len() as int),
        spec_trim_end(s).len() <= s.len(),
        spec_trim_end(s).len() == 0 || !spec_is_whitespace(spec_trim_end(s).last()),
        spec_trim_end(spec_trim_end(s)) == spec_trim_end(s),
    decreases s.len(),
{
    if s.len() > 0 && spec_is_whitespace(s.last()) {
        lemma_trim_end_prefix(s.drop_last());
        assert(s.drop_last().subrange(0, spec_trim_end(s).len() as int) =~= s.subrange(0, spec_trim_end(s).len() as int));
    } else {
        assert(s.subrange(0, s.len() as int) =~= s);
    }
}

/// The trimmed lines.
pub open spec fn trim_all(ls: Seq<Seq<char>>) -> Seq<Seq<char>> {
    ls.map_values(|l: Seq<char>| spec_trim_end(l))
}

proof fn lemma_fixed_is_joined(ls: Seq<Seq<char>>)
    ensures
        fixed_lines(ls) == joined(trim_all(ls)),
        !lines_changed(ls) <==> trim_all(ls) == ls,
    decreases ls.len(),
{
    if ls.len() > 0 {
        lemma_fixed_is_joined(ls.drop_last());
        assert(trim_all(ls).drop_last() =~= trim_all(ls.drop_last()));
        if trim_all(ls) == ls {
            assert(trim_all(ls.drop_last()) =~= ls.drop_last());
            assert(spec_trim_end(ls.last()) == trim_all(ls)[ls.len() - 1]);
        }
        if !lines_changed(ls) {
            assert(trim_all(ls.drop_last()) == ls.drop_last());
            assert forall|i: int| 0 <= i < ls.len() implies trim_all(ls)[i] == ls[i] by {
                if i < ls.len() - 1 {
                    assert(trim_all(ls)[i] == trim_all(ls.drop_last())[i]);
                    assert(ls.drop_last()[i] == ls[i]);
                }
            }
            assert(trim_all(ls) =~= ls);
        }
    } else {
        assert(trim_all(ls) =~= ls);
    }
}

/// Collapsing the final line breaks of joined lines drops empty last lines,
/// keeping at least one line.
proof fn lemma_collapse_joined(ls: Seq<Seq<char>>) -> (k: Seq<Seq<char>>)
    requires
        ls.len() >= 1,
        no_breaks(ls),
        all_trimmed(ls),
    ensures
        collapse(joined(ls)) == joined(k),
        k.len() >= 1,
        k.last().len() > 0 || k.len() == 1,
        no_breaks(k),
        all_trimmed(k),
    decreases ls.len(),
{
    let s = joined(ls);
    if ls.len() >= 2 && ls.last().len() == 0 {
        let p = ls.drop_last();
        assert(s =~= joined(p) + seq!['\n']);
        lemma_joined_front(p);
        assert(joined(p).len() >= 1);
        assert(joined(p) =~= joined(p.drop_last()) + p.last() + seq!['\n']);
        assert(s[s.len() - 2] == '\n');
        assert(s.drop_last() =~= joined(p));
        assert(no_breaks(p)) by {
            assert forall|i: int| 0 <= i < p.len() implies !(#[trigger] p[i]).contains('\n') by {
                assert(p[i] == ls[i]);
            }
        }
        assert(all_trimmed(p)) by {
            assert forall|i: int| 0 <= i < p.len() implies ((#[trigger] p[i]).len() == 0 || !spec_is_whitespace(p[i].last())) by {
                assert(p[i] == ls[i]);
            }
        }
        lemma_collapse_joined(p)
    } else {
        if ls.last().len() > 0 {
            let l = ls.last();
            assert(s =~= joined(ls.drop_last()) + l + seq!['\n']);
            assert(s[s.len() - 2] == l.last());
            assert(l.contains(l.last()));
            assert(s[s.len() - 2] != '\n');
        } else {
            assert(ls.drop_last() =~= Seq::<Seq<char>>::empty());
            assert(s =~= seq!['\n']);
        }
        ls
    }
}

/// Repairing a repaired non-empty document finds nothing more to repair.
pub proof fn law_fix_twice(content: Seq<char>)
    requires
        content.len() > 0,
    ensures
        !spec_fix(spec_fix(content).0).1,
{
    let ls = spec_lines(content);
    let parts = spec_split(content, '\n');
    lemma_split_pieces(content);
    let kept = if parts.last().len() == 0 { parts.drop_last() } else { parts };
    assert(kept.len() >= 1);
    assert(no_breaks(ls)) by {
        assert forall|i: int| 0 <= i < ls.len() implies !(#[trigger] ls[i]).contains('\n') by {
            assert(ls[i] == spec_strip_cr(kept[i]));
            assert(kept[i] == parts[i]);
            assert(!parts[i].contains('\n'));
            if ls[i].contains('\n') {
                let j = choose|j: int| 0 <= j < ls[i].len() && ls[i][j] == '\n';
                assert(parts[i][j] == '\n');
            }
        }
    }
    let t = trim_all(ls);
    assert(no_breaks(t) && all_trimmed(t)) by {
        assert forall|i: int| 0 <= i < t.len() implies !(#[trigger] t[i]).contains('\n') by {
            lemma_trim_end_prefix(ls[i]);
            if t[i].contains('\n') {
                let j = choose|j: int| 0 <= j < t[i].len() && t[i][j] == '\n';
                assert(ls[i][j] == '\n');
            }
        }
        assert forall|i: int| 0 <= i < t.len() implies ((#[trigger] t[i]).len() == 0 || !spec_is_whitespace(t[i].last())) by {
            lemma_trim_end_prefix(ls[i]);
        }
    }
    lemma_fixed_is_joined(ls);
    let k = lemma_collapse_joined(t);
    let c = joined(k);
    assert(spec_fix(content).0 == c);
    lemma_lines_joined(k);
    lemma_fixed_is_joined(k);
    assert(trim_all(k) =~= k) by {
        assert forall|i: int| 0 <= i < k.len() implies trim_all(k)[i] == k[i] by {
            if k[i].len() > 0 {
                assert(!spec_is_whitespace(k[i].last()));
            }
        }
    }
    assert(c =~= joined(k.drop_last()) + k.last() + seq!['\n']);
    assert(c.len() > 0 && c.last() == '\n');
    if k.last().len() > 0 {
        let l = k.last();
        assert(c[c.len() - 2] == l.last());
        assert(l.contains(l.last()));
    } else {
        assert(k.drop_last() =~= Seq::<Seq<char>>::empty());
        assert(c =~= seq!['\n']);
    }
    assert(collapse(c) == c);
}

/// The pieces of a split at line breaks, put back together with line
/// breaks between them, give the text again.
proof fn lemma_split_rejoin(s: Seq<char>)
    ensures
        spec_split(s, '\n').len() >= 1,
        s == joined(spec_split(s, '\n').drop_last()) + spec_split(s, '\n').last(),
    decreases s.len(),
{
    let nl = seq!['\n'];
    lemma_find_from(s, nl, 0);
    let parts = spec_split(s, '\n');
    match spec_find(s, nl) {
        Some(i) => {
            if 0 <= i < s.len() {
                let x = s.subrange(0, i);
                let rest = s.subrange(i + 1, s.len() as int);
                lemma_split_rejoin(rest);
                let r = spec_split(rest, '\n');
                assert(parts =~= seq![x] + r);
                let d = parts.drop_last();
                assert(d =~= seq![x] + r.drop_last());
                lemma_joined_front(d);
                assert(d.drop_first() =~= r.drop_last());
                assert(parts.last() == r.last());
                assert(s.subrange(i, i + 1) =~= nl);
                assert(s =~= x + nl + rest);
                assert(s =~= joined(d) + parts.last());
            } else {
                assert(joined(parts.drop_last()) =~= Seq::<char>::empty());
                assert(s =~= joined(parts.drop_last()) + parts.last());
            }
        },
        None => {
            assert(parts.drop_last() =~= Seq::<Seq<char>>::empty());
            assert(s =~= joined(parts.drop_last()) + parts.last());
        },
    }
}

/// A character absent from joined lines is absent from each line.
proof fn lemma_joined_without(ls: Seq<Seq<char>>, c: char)
    requires
        !joined(ls).contains(c),
    ensures
        forall|i: int| 0 <= i < ls.len() ==> !(#[trigger] ls[i]).contains(c),
    decreases ls.len(),
{
    if ls.len() > 0 {
        let p = joined(ls.drop_last());
        let l = ls.last();
        assert(joined(ls) =~= p + l + seq!['\n']);
        assert(!p.contains(c)) by {
            if p.contains(c) {
                let j = choose|j: int| 0 <= j < p.len() && p[j] == c;
                assert(joined(ls)[j] == c);
            }
        }
        lemma_joined_without(ls.drop_last(), c);
        assert forall|i: int| 0 <= i < ls.len() implies !(#[trigger] ls[i]).contains(c) by {
            if i < ls.len() - 1 {
                assert(ls[i] == ls.drop_last()[i]);
            } else if l.contains(c) {
                let j = choose|j: int| 0 <= j < l.len() && l[j] == c;
                assert(joined(ls)[p.len() + j] == c);
            }
        }
    }
}

/// A text ending in a line break, without carriage returns, is its lines
/// each followed by a line break.
proof fn lemma_lines_rejoin(s: Seq<char>)
    requires
        s.len() > 0,
        s.last() == '\n',
        !s.contains('\r'),
    ensures
        joined(spec_lines(s)) == s,
{
    lemma_split_rejoin(s);
    lemma_split_pieces(s);
    let parts = spec_split(s, '\n');
    let l = parts.last();
    assert(l.len() == 0) by {
        if l.len() > 0 {
            assert(s[s.len() - 1] == l.last());
            assert(!parts[parts.len() - 1].contains('\n'));
            assert(l.contains(l.last()));
        }
    }
    let kept = parts.drop_last();
    assert(s =~= joined(kept));
    lemma_joined_without(kept, '\r');
    assert(spec_lines(s) =~= kept) by {
        assert forall|i: int| 0 <= i < kept.len() implies spec_strip_cr(#[trigger] kept[i]) == kept[i] by {
            if kept[i].len() > 0 {
                assert(kept[i].contains(kept[i].last()));
            }
        }
    }
}

/// Collapsing never lengthens a text.
proof fn lemma_collapse_len(s: Seq<char>)
    ensures
        collapse(s).len() <= s.len(),
    decreases s.len(),
{
    if s.len() >= 2 && s.last() == '\n' && s[s.len() - 2] == '\n' {
        lemma_collapse_len(s.drop_last());
    }
}

/// A non-empty document without carriage returns needs no repair exactly
/// when it ends in one line break, not two, and no line ends in whitespace.
pub proof fn law_fix_needed(content: Seq<char>)
    requires
        content.len() > 0,
        !content.contains('\r'),
    ensures
        !spec_fix(content).1 <==> {
            &&& content.last() == '\n'
            &&& !(content.len() >= 2 && content[content.len() - 2] == '\n')
            &&& forall|i: int| 0 <= i < spec_lines(content).len()
                ==> spec_trim_end(#[trigger] spec_lines(content)[i]) == spec_lines(content)[i]
        },
{
    let ls = spec_lines(content);
    lemma_fixed_is_joined(ls);
    let pointwise = forall|i: int| 0 <= i < ls.len() ==> spec_trim_end(#[trigger] ls[i]) == ls[i];
    assert(pointwise <==> trim_all(ls) == ls) by {
        if pointwise {
            assert(trim_all(ls) =~= ls);
        }
        if trim_all(ls) == ls {
            assert forall|i: int| 0 <= i < ls.len() implies spec_trim_end(#[trigger] ls[i]) == ls[i] by {
                assert(trim_all(ls)[i] == spec_trim_end(ls[i]));
            }
        }
    }
    if content.last() == '\n' && !lines_changed(ls) {
        lemma_lines_rejoin(content);
        assert(fixed_lines(ls) == content);
        if content.len() >= 2 && content[content.len() - 2] == '\n' {
            lemma_collapse_len(content.drop_last());
            assert(collapse(content) == collapse(content.drop_last()));
        }
    }
}

/// Number of fence lines (three backticks or tildes after leading blanks).
pub open spec fn fence_count(ls: Seq<Seq<char>>) -> nat
    decreases ls.len(),
{
    if ls.len() == 0 {
        0
    } else {
        fence_count(ls.drop_last()) + if is_fence(spec_trim_start(ls.last())) { 1nat } else { 0nat }
    }
}

/// The L002 scan is inside a code block after an odd number of fences.
proof fn lemma_l002_parity(ls: Seq<Seq<char>>)
    ensures
        rule_l002_scan(ls).0 == (fence_count(ls) % 2 == 1),
    decreases ls.len(),
{
    if ls.len() > 0 {
        lemma_l002_parity(ls.drop_last());
    }
}

/// Inside a code block, lines that are no fences change nothing.
proof fn lemma_l002_inside(pre: Seq<Seq<char>>, open: Seq<char>, m: Seq<Seq<char>>)
    requires
        !rule_l002_scan(pre).0,
        is_fence(spec_trim_start(open)),
        forall|i: int| 0 <= i < m.len() ==> !is_fence(spec_trim_start(#[trigger] m[i])),
    ensures
        rule_l002_scan(pre.push(open) + m) == (true, rule_l002_scan(pre).1, rule_l002_scan(pre).2),
    decreases m.len(),
{
    let a = pre.push(open);
    assert(a.drop_last() =~= pre);
    if m.len() == 0 {
        assert(a + m =~= a);
    } else {
        let md = m.drop_last();
        assert forall|i: int| 0 <= i < md.len() implies !is_fence(spec_trim_start(#[trigger] md[i])) by {
            assert(md[i] == m[i]);
        }
        lemma_l002_inside(pre, open, md);
        assert((a + m).drop_last() =~= a + md);
        assert((a + m).last() == m[m.len() - 1]);
    }
}

/// Equal scan states stay equal over the same following lines.
proof fn lemma_l002_same_tail(a: Seq<Seq<char>>, b: Seq<Seq<char>>, post: Seq<Seq<char>>)
    requires
        a.len() == b.len(),
        rule_l002_scan(a) == rule_l002_scan(b),
    ensures
        rule_l002_scan(a + post) == rule_l002_scan(b + post),
    decreases post.len(),
{
    if post.len() == 0 {
        assert(a + post =~= a);
        assert(b + post =~= b);
    } else {
        let pd = post.drop_last();
        lemma_l002_same_tail(a, b, pd);
        assert((a + post).drop_last() =~= a + pd);
        assert((b + post).drop_last() =~= b + pd);
        assert((a + post).last() == (b + post).last());
    }
}

/// L002 looks at headings outside fenced code blocks only: replacing the
/// lines inside a fenced block (opened after an even number of fences) by
/// as many other lines, none of them a fence, leaves the L002 issues as
/// they were; lines inside a block neither raise an issue nor change the
/// level later headings are compared with.
pub proof fn law_l002_ignores_code_blocks(
    pre: Seq<Seq<char>>,
    open: Seq<char>,
    mid: Seq<Seq<char>>,
    mid2: Seq<Seq<char>>,
    close: Seq<char>,
    post: Seq<Seq<char>>,
)
    requires
        fence_count(pre) % 2 == 0,
        is_fence(spec_trim_start(open)),
        is_fence(spec_trim_start(close)),
        mid.len() == mid2.len(),
        forall|i: int| 0 <= i < mid.len() ==> !is_fence(spec_trim_start(#[trigger] mid[i])),
        forall|i: int| 0 <= i < mid2.len() ==> !is_fence(spec_trim_start(#[trigger] mid2[i])),
    ensures
        rule_l002_scan(pre.push(open) + mid + seq![close] + post).2
            == rule_l002_scan(pre.push(open) + mid2 + seq![close] + post).2,
{
    lemma_l002_parity(pre);
    lemma_l002_inside(pre, open, mid);
    lemma_l002_inside(pre, open, mid2);
    let x = pre.push(open) + mid;
    let y = pre.push(open) + mid2;
    let xa = x + seq![close];
    let ya = y + seq![close];
    assert(xa.drop_last() =~= x);
    assert(ya.drop_last() =~= y);
    assert(xa.last() == close);
    assert(ya.last() == close);
    assert(rule_l002_scan(xa) == rule_l002_scan(ya));
    lemma_l002_same_tail(xa, ya, post);
}

/// A heading line: it starts with `#`.
pub open spec fn is_heading(l: Seq<char>) -> bool {
    l.len() > 0 && l[0] == '#'
}

/// The heading at `i` comes more than one level below the heading before
/// it (the last heading line above it).
pub open spec fn skips_level(ls: Seq<Seq<char>>, i: int) -> bool {
    &&& is_heading(ls[i])
    &&& exists|k: int| 0 <= k < i && is_heading(#[trigger] ls[k])
        && (forall|q: int| k < q < i ==> !is_heading(#[trigger] ls[q]))
        && hashes(ls[i]) > hashes(ls[k]) + 1
}

proof fn lemma_l002_plain(ls: Seq<Seq<char>>)
    requires
        fence_count(ls) == 0,
        ls.len() <= usize::MAX,
    ensures
        !rule_l002_scan(ls).0,
        rule_l002_scan(ls).1 > 0 ==> exists|k: int| 0 <= k < ls.len() && is_heading(#[trigger] ls[k])
            && (forall|q: int| k < q < ls.len() ==> !is_heading(#[trigger] ls[q]))
            && hashes(ls[k]) == rule_l002_scan(ls).1,
        rule_l002_scan(ls).1 == 0 ==> forall|q: int| 0 <= q < ls.len() ==> !is_heading(#[trigger] ls[q]),
        forall|j: int| 0 <= j < rule_l002_scan(ls).2.len() ==> ((#[trigger] rule_l002_scan(ls).2[j]).2 matches Some(n)
            && 1 <= n <= ls.len()),
        forall|i: int| 0 <= i < ls.len() ==> ((exists|j: int| 0 <= j < rule_l002_scan(ls).2.len()
            && (#[trigger] rule_l002_scan(ls).2[j]).2 == Some((i + 1) as usize)) <==> skips_level(ls, i)),
    decreases ls.len(),
{
    if ls.len() > 0 {
        let d = ls.drop_last();
        let l = ls.last();
        let n = ls.len() as int;
        assert(!is_fence(spec_trim_start(l)));
        assert(fence_count(d) == 0);
        lemma_l002_plain(d);
        let (ins, last, p) = rule_l002_scan(d);
        let r = rule_l002_scan(ls);
        assert forall|q: int| 0 <= q < n - 1 implies #[trigger] ls[q] == d[q] by {}
        if is_heading(l) {
            assert(hashes(l) == 1 + hashes(l.drop_first()));
        }
        // Issues of the earlier lines stay, an issue of the last line is new.
        assert forall|j: int| 0 <= j < p.len() implies r.2[j] == #[trigger] p[j] by {}
        assert forall|i: int| 0 <= i < n - 1 implies skips_level(ls, i) == skips_level(d, i) by {
            if skips_level(d, i) {
                let k = choose|k: int| 0 <= k < i && is_heading(#[trigger] d[k])
                    && (forall|q: int| k < q < i ==> !is_heading(#[trigger] d[q])) && hashes(d[i]) > hashes(d[k]) + 1;
                assert(ls[k] == d[k]);
                assert forall|q: int| k < q < i implies !is_heading(#[trigger] ls[q]) by {
                    assert(ls[q] == d[q]);
                }
            }
            if skips_level(ls, i) {
                let k = choose|k: int| 0 <= k < i && is_heading(#[trigger] ls[k])
                    && (forall|q: int| k < q < i ==> !is_heading(#[trigger] ls[q])) && hashes(ls[i]) > hashes(ls[k]) + 1;
                assert(ls[k] == d[k]);
                assert forall|q: int| k < q < i implies !is_heading(#[trigger] d[q]) by {
                    assert(ls[q] == d[q]);
                }
            }
        }
        // The last line skips a level exactly when the scan says so.
        assert(skips_level(ls, n - 1) <==> (is_heading(l) && last > 0 && hashes(l) > last + 1)) by {
            if last > 0 {
                let k = choose|k: int| 0 <= k < d.len() && is_heading(#[trigger] d[k])
                    && (forall|q: int| k < q < d.len() ==> !is_heading(#[trigger] d[q])) && hashes(d[k]) == last;
                assert(ls[k] == d[k]);
                assert forall|q: int| k < q < n - 1 implies !is_heading(#[trigger] ls[q]) by {
                    assert(ls[q] == d[q]);
                }
                if skips_level(ls, n - 1) {
                    let k2 = choose|k2: int| 0 <= k2 < n - 1 && is_heading(#[trigger] ls[k2])
                        && (forall|q: int| k2 < q < n - 1 ==> !is_heading(#[trigger] ls[q])) && hashes(ls[n - 1]) > hashes(ls[k2]) + 1;
                    if k2 < k {
                        assert(!is_heading(ls[k]));
                    } else if k < k2 {
                        assert(!is_heading(d[k2]));
                    }
                }
            } else {
                if skips_level(ls, n - 1) {
                    let k2 = choose|k2: int| 0 <= k2 < n - 1 && is_heading(#[trigger] ls[k2])
                        && (forall|q: int| k2 < q < n - 1 ==> !is_heading(#[trigger] ls[q])) && hashes(ls[n - 1]) > hashes(ls[k2]) + 1;
                    assert(!is_heading(d[k2]));
                }
            }
        }
        if is_heading(l) && last > 0 && hashes(l) > last + 1 {
            assert(r.2 == p.push(r.2[p.len() as int]));
            assert(r.2[p.len() as int].2 == Some(n as usize));
        } else {
            assert(r.2 == p);
        }
        assert forall|i: int| 0 <= i < n implies ((exists|j: int| 0 <= j < r.2.len()
            && (#[trigger] r.2[j]).2 == Some((i + 1) as usize)) <==> skips_level(ls, i)) by {
            if i < n - 1 {
                if exists|j: int| 0 <= j < r.2.len() && (#[trigger] r.2[j]).2 == Some((i + 1) as usize) {
                    let j = choose|j: int| 0 <= j < r.2.len() && (#[trigger] r.2[j]).2 == Some((i + 1) as usize);
                    if j < p.len() {
                        assert(r.2[j] == p[j]);
                    }
                }
                if exists|j: int| 0 <= j < p.len() && (#[trigger] p[j]).2 == Some((i + 1) as usize) {
                    let j = choose|j: int| 0 <= j < p.len() && (#[trigger] p[j]).2 == Some((i + 1) as usize);
                    assert(r.2[j] == p[j]);
                }
            } else {
                if exists|j: int| 0 <= j < r.2.len() && (#[trigger] r.2[j]).2 == Some((i + 1) as usize) {
                    let j = choose|j: int| 0 <= j < r.2.len() && (#[trigger] r.2[j]).2 == Some((i + 1) as usize);
                    if j < p.len() {
                        assert(r.2[j] == p[j]);
                        assert(p[j].2 matches Some(m) && (m <= n - 1));
                    }
                }
                if skips_level(ls, i) {
                    assert(r.2[p.len() as int].2 == Some(n as usize));
                }
            }
        }
        if is_heading(l) {
            assert forall|q: int| n - 1 < q < n implies !is_heading(#[trigger] ls[q]) by {}
        } else {
            if last > 0 {
                let k = choose|k: int| 0 <= k < d.len() && is_heading(#[trigger] d[k])
                    && (forall|q: int| k < q < d.len() ==> !is_heading(#[trigger] d[q])) && hashes(d[k]) == last;
                assert(ls[k] == d[k]);
                assert forall|q: int| k < q < n implies !is_heading(#[trigger] ls[q]) by {
                    if q < n - 1 {
                        assert(ls[q] == d[q]);
                    }
                }
            } else {
                assert forall|q: int| 0 <= q < n implies !is_heading(#[trigger] ls[q]) by {
                    if q < n - 1 {
                        assert(ls[q] == d[q]);
                    }
                }
            }
        }
        assert forall|j: int| 0 <= j < r.2.len() implies ((#[trigger] r.2[j]).2 matches Some(m) && 1 <= m <= n) by {
            if j < p.len() {
                assert(r.2[j] == p[j]);
            }
        }
    }
}

/// Outside code blocks, L002 reports a heading exactly when it comes more
/// than one level below the heading before it: in a document without
/// fences, line `i + 1` has an issue exactly when [`skips_level`] holds.
pub proof fn law_l002_reports_skips(ls: Seq<Seq<char>>, i: int)
    requires
        fence_count(ls) == 0,
        ls.len() <= usize::MAX,
        0 <= i < ls.len(),
    ensures
        (exists|j: int| 0 <= j < rule_l002_scan(ls).2.len() && (#[trigger] rule_l002_scan(ls).2[j]).2 == Some((i + 1) as usize))
            <==> skips_level(ls, i),
{
    lemma_l002_plain(ls);
}

} // verus!
