//! Reading a field of a document's front matter as plain text.

use vstd::prelude::*;
use crate::text::{
    chars_of, concat2, lines, slice_to_vec, spec_find, spec_lines, spec_starts_with, spec_trim,
    starts_with, string_of, trim, views, find,
};

verus! {

/// A quote character stripped around values.
pub open spec fn is_quote(c: char) -> bool {
    c == '"' || c == '\''
}

/// `s` without quotes at either end (`trim_matches` on quotes).
pub open spec fn strip_quotes(s: Seq<char>) -> Seq<char>
    decreases s.len(),
{
    if s.len() > 0 && is_quote(s[0]) {
        strip_quotes(s.drop_first())
    } else if s.len() > 0 && is_quote(s.last()) {
        strip_quotes(s.drop_last())
    } else {
        s
    }
}

/// The text between the opening `---` and the next `---`, when the
/// document starts with `---`.
pub open spec fn yaml_block(content: Seq<char>) -> Option<Seq<char>> {
    if spec_starts_with(content, "---"@) {
        match spec_find(content.skip(3), "---"@) {
            Some(e) => Some(content.subrange(3, 3 + e)),
            None => None,
        }
    } else {
        None
    }
}

/// The value of the first line of `ls` (trimmed) that starts with
/// `field:` and has a non-empty value once trimmed and unquoted.
pub open spec fn field_in_lines(ls: Seq<Seq<char>>, field: Seq<char>) -> Option<Seq<char>>
    decreases ls.len(),
{
    if ls.len() == 0 {
        None
    } else {
        let t = spec_trim(ls[0]);
        let key = field + ":"@;
        if spec_starts_with(t, key) && strip_quotes(spec_trim(t.skip(key.len() as int))).len() > 0 {
            Some(strip_quotes(spec_trim(t.skip(key.len() as int))))
        } else {
            field_in_lines(ls.drop_first(), field)
        }
    }
}

/// The value of a front matter field: from the first line of the front
/// matter that starts with `field:` and has a non-empty value.
pub open spec fn spec_yaml_field(content: Seq<char>, field: Seq<char>) -> Option<Seq<char>> {
    match yaml_block(content) {
        Some(y) => field_in_lines(spec_lines(y), field),
        None => None,
    }
}

/// Quotes removed at both ends.
fn strip_quotes_exec(s: &[char]) -> (r: Vec<char>)
    ensures
        r@ == strip_quotes(s@),
{
    let mut a: usize = 0;
    let mut b: usize = s.len();
    assert(s@.subrange(0, s@.len() as int) =~= s@);
    while a < b && (s[a] == '"' || s[a] == '\'')
        invariant
            a <= b <= s@.len(),
            b == s@.len(),
            strip_quotes(s@) == strip_quotes(s@.subrange(a as int, b as int)),
        decreases b - a,
    {
        assert(s@.subrange(a as int, b as int).drop_first() =~= s@.subrange(a + 1, b as int));
        a = a + 1;
    }
    while a < b && (s[b - 1] == '"' || s[b - 1] == '\'')
        invariant
            a <= b <= s@.len(),
            a == b || !is_quote(s@[a as int]),
            strip_quotes(s@) == strip_quotes(s@.subrange(a as int, b as int)),
        decreases b - a,
    {
        assert(s@.subrange(a as int, b as int).drop_last() =~= s@.subrange(a as int, b - 1));
        b = b - 1;
    }
    slice_to_vec(s, a, b)
}

/// The value of a front matter field.
pub fn yaml_field(content: &str, field: &str) -> (r: Option<String>)
    ensures
        match r {
            Some(v) => spec_yaml_field(content@, field@) == Some(v@),
            None => spec_yaml_field(content@, field@) is None,
        },
{
    let cv = chars_of(content);
    let dash = chars_of("---");
    proof {
        reveal_strlit("---");
    }
    if !starts_with(&cv, &dash) {
        return None;
    }
    let rest = slice_to_vec(&cv, 3, cv.len());
    assert(rest@ =~= content@.skip(3));
    let e = match find(&rest, &dash) {
        Some(e) => e,
        None => { return None; },
    };
    proof {
        crate::text::lemma_find_from(rest@, dash@, 0);
    }
    let y = slice_to_vec(&cv, 3, 3 + e);
    assert(spec_find(content@.skip(3), "---"@) == Some(e as int));
    assert(yaml_block(content@) == Some(y@));
    let ls = lines(&y);
    let key = chars_of(concat2(field, ":").as_str());
    let ghost lv = views(ls@);
    let mut i: usize = 0;
    assert(lv.skip(0) =~= lv);
    while i < ls.len()
        invariant
            i <= ls@.len(),
            lv == views(ls@),
            lv == spec_lines(y@),
            yaml_block(content@) == Some(y@),
            key@ == field@ + ":"@,
            field_in_lines(lv, field@) == field_in_lines(lv.skip(i as int), field@),
        decreases ls@.len() - i,
    {
        let ghost rest_l = lv.skip(i as int);
        assert(rest_l[0] == ls@[i as int]@);
        assert(rest_l.drop_first() =~= lv.skip(i + 1));
        let t = trim(ls[i].as_slice());
        if starts_with(&t, &key) {
            let after = slice_to_vec(&t, key.len(), t.len());
            assert(after@ =~= t@.skip(key@.len() as int));
            let v = strip_quotes_exec(&trim(&after));
            if v.len() > 0 {
                assert(spec_trim(rest_l[0]) == t@);
                assert(field_in_lines(rest_l, field@) == Some(v@));
                return Some(string_of(&v));
            }
        }
        i = i + 1;
    }
    None
}

} // verus!
