//! Lexicographic order of texts (the order of `str::cmp`, which on UTF-8
//! is the order of code points) and sorting by it.

use vstd::prelude::*;
use vstd::multiset::Multiset;
use crate::text::{chars_of, strs};

verus! {

broadcast use vstd::seq_lib::group_to_multiset_ensures;

/// `a` comes strictly before `b`: at the first difference `a` has the
/// smaller code point, or `a` is a proper prefix of `b`.
pub open spec fn str_lt(a: Seq<char>, b: Seq<char>) -> bool
    decreases a.len(),
{
    if a.len() == 0 {
        b.len() > 0
    } else if b.len() == 0 {
        false
    } else if a[0] != b[0] {
        a[0] < b[0]
    } else {
        str_lt(a.drop_first(), b.drop_first())
    }
}

/// `a` comes before `b` or equals it.
pub open spec fn str_le(a: Seq<char>, b: Seq<char>) -> bool {
    a == b || str_lt(a, b)
}

/// Texts in non-decreasing order.
pub open spec fn sorted_strs(v: Seq<Seq<char>>) -> bool {
    forall|i: int, j: int| 0 <= i < j < v.len() ==> str_le(#[trigger] v[i], #[trigger] v[j])
}

/// The order is total.
pub proof fn lemma_str_total(a: Seq<char>, b: Seq<char>)
    ensures
        str_lt(a, b) || a == b || str_lt(b, a),
    decreases a.len(),
{
    if a.len() > 0 && b.len() > 0 && a[0] == b[0] {
        lemma_str_total(a.drop_first(), b.drop_first());
        if a.drop_first() == b.drop_first() {
            assert(a =~= seq![a[0]] + a.drop_first());
            assert(b =~= seq![b[0]] + b.drop_first());
        }
    }
}

/// The strict order is irreflexive and asymmetric.
pub proof fn lemma_str_lt_asym(a: Seq<char>, b: Seq<char>)
    ensures
        !(str_lt(a, b) && str_lt(b, a)),
        !str_lt(a, a),
    decreases a.len(),
{
    if a.len() > 0 && b.len() > 0 && a[0] == b[0] {
        lemma_str_lt_asym(a.drop_first(), b.drop_first());
    }
    if a.len() > 0 {
        lemma_str_lt_asym(a.drop_first(), a.drop_first());
    }
}

/// The order is transitive.
pub proof fn lemma_str_lt_trans(a: Seq<char>, b: Seq<char>, c: Seq<char>)
    requires
        str_lt(a, b),
        str_lt(b, c),
    ensures
        str_lt(a, c),
    decreases a.len(),
{
    if a.len() > 0 && b.len() > 0 && c.len() > 0 && a[0] == b[0] && b[0] == c[0] {
        lemma_str_lt_trans(a.drop_first(), b.drop_first(), c.drop_first());
    }
}

/// Whether `a` comes strictly before `b`.
pub fn str_less(a: &str, b: &str) -> (r: bool)
    ensures
        r == str_lt(a@, b@),
{
    let x = chars_of(a);
    let y = chars_of(b);
    let mut i: usize = 0;
    assert(a@.skip(0) =~= a@);
    assert(b@.skip(0) =~= b@);
    while i < x.len() && i < y.len() && x[i] == y[i]
        invariant
            i <= x@.len(),
            i <= y@.len(),
            x@ == a@,
            y@ == b@,
            str_lt(a@, b@) == str_lt(a@.skip(i as int), b@.skip(i as int)),
        decreases x@.len() - i,
    {
        assert(a@.skip(i as int).drop_first() =~= a@.skip(i + 1));
        assert(b@.skip(i as int).drop_first() =~= b@.skip(i + 1));
        i = i + 1;
    }
    if i == x.len() {
        i < y.len()
    } else if i == y.len() {
        false
    } else {
        x[i] < y[i]
    }
}

/// Sorts strings into non-decreasing order (`slice::sort` on `String`).
pub fn sort_strings(v: &mut Vec<String>)
    ensures
        sorted_strs(strs(final(v)@)),
        strs(final(v)@).to_multiset() == strs(old(v)@).to_multiset(),
        final(v)@.len() == old(v)@.len(),
{
    let mut out: Vec<String> = Vec::new();
    let n = v.len();
    let ghost orig = strs(v@);
    while v.len() > 0
        invariant
            sorted_strs(strs(out@)),
            strs(out@).to_multiset().add(strs(v@).to_multiset()) == orig.to_multiset(),
            out@.len() + v@.len() == n,
            n == orig.len(),
        decreases v@.len(),
    {
        let ghost v0 = strs(v@);
        let x = v.pop().unwrap();
        proof {
            assert(v0 =~= strs(v@).push(x@));
        }
        let mut p: usize = 0;
        while p < out.len() && !str_less(x.as_str(), out[p].as_str())
            invariant
                p <= out@.len(),
                forall|k: int| 0 <= k < p ==> str_le(#[trigger] strs(out@)[k], x@),
            decreases out@.len() - p,
        {
            proof {
                lemma_str_total(x@, out@[p as int]@);
                assert(strs(out@)[p as int] == out@[p as int]@);
            }
            p = p + 1;
        }
        let ghost o0 = strs(out@);
        out.insert(p, x);
        proof {
            assert(strs(out@) =~= o0.insert(p as int, x@));
            assert forall|i: int, j: int| 0 <= i < j < strs(out@).len()
                implies str_le(#[trigger] strs(out@)[i], #[trigger] strs(out@)[j]) by {
                let s = strs(out@);
                if j < p {
                    assert(s[i] == o0[i] && s[j] == o0[j]);
                } else if j == p {
                    assert(s[j] == x@ && s[i] == o0[i]);
                } else if i == p {
                    // x < o0[p] <= o0[j - 1]
                    assert(s[j] == o0[j - 1]);
                    if p < o0.len() {
                        assert(str_lt(x@, o0[p as int]));
                        if j - 1 > p {
                            assert(str_le(o0[p as int], o0[j - 1]));
                            if str_lt(o0[p as int], o0[j - 1]) {
                                lemma_str_lt_trans(x@, o0[p as int], o0[j - 1]);
                            }
                        }
                    }
                } else if i < p {
                    assert(s[i] == o0[i] && s[j] == o0[j - 1]);
                    if i < j - 1 {
                        assert(str_le(o0[i], o0[j - 1]));
                    }
                } else {
                    assert(s[i] == o0[i - 1] && s[j] == o0[j - 1]);
                }
            }
            assert(o0.insert(p as int, x@).to_multiset() == o0.to_multiset().insert(x@));
            assert(v0.to_multiset() == strs(v@).to_multiset().insert(x@));
            assert(strs(out@).to_multiset().add(strs(v@).to_multiset())
                =~= o0.to_multiset().add(v0.to_multiset()));
        }
    }
    proof {
        assert(strs(v@).to_multiset() =~= Multiset::empty());
        assert(strs(out@).to_multiset().add(Multiset::empty()) =~= strs(out@).to_multiset());
    }
    *v = out;
}

/// The texts of `s` in non-decreasing order.
pub open spec fn sorted_of(s: Seq<Seq<char>>) -> Seq<Seq<char>> {
    choose|t: Seq<Seq<char>>| sorted_strs(t) && t.to_multiset() == s.to_multiset()
}

/// Two sorted sequences with the same elements are equal.
pub proof fn lemma_sorted_unique(a: Seq<Seq<char>>, b: Seq<Seq<char>>)
    requires
        sorted_strs(a),
        sorted_strs(b),
        a.to_multiset() == b.to_multiset(),
    ensures
        a == b,
    decreases a.len(),
{
    assert(a.len() == a.to_multiset().len());
    assert(b.len() == b.to_multiset().len());
    if a.len() == 0 {
        assert(a =~= b);
    } else {
        assert(a.to_multiset().count(a[0]) > 0);
        assert(b.to_multiset().count(a[0]) > 0);
        assert(b.contains(a[0]));
        let j = choose|j: int| 0 <= j < b.len() && b[j] == a[0];
        assert(b.to_multiset().count(b[0]) > 0);
        assert(a.contains(b[0]));
        let i = choose|i: int| 0 <= i < a.len() && a[i] == b[0];
        assert(str_le(b[0], a[0])) by {
            if j > 0 {
                assert(str_le(b[0], b[j]));
            }
        }
        assert(str_le(a[0], b[0])) by {
            if i > 0 {
                assert(str_le(a[0], a[i]));
            }
        }
        lemma_str_lt_asym(a[0], b[0]);
        assert(a[0] == b[0]);
        assert(a.remove(0) =~= a.drop_first());
        assert(b.remove(0) =~= b.drop_first());
        assert(a.remove(0).to_multiset() == a.to_multiset().remove(a[0]));
        assert(b.remove(0).to_multiset() == b.to_multiset().remove(b[0]));
        assert(sorted_strs(a.drop_first())) by {
            assert forall|x: int, y: int| 0 <= x < y < a.drop_first().len() implies
                str_le(#[trigger] a.drop_first()[x], #[trigger] a.drop_first()[y]) by {
                assert(a.drop_first()[x] == a[x + 1]);
                assert(a.drop_first()[y] == a[y + 1]);
            }
        }
        assert(sorted_strs(b.drop_first())) by {
            assert forall|x: int, y: int| 0 <= x < y < b.drop_first().len() implies
                str_le(#[trigger] b.drop_first()[x], #[trigger] b.drop_first()[y]) by {
                assert(b.drop_first()[x] == b[x + 1]);
                assert(b.drop_first()[y] == b[y + 1]);
            }
        }
        lemma_sorted_unique(a.drop_first(), b.drop_first());
        assert(a =~= b) by {
            assert forall|k: int| 0 <= k < a.len() implies a[k] == b[k] by {
                if k > 0 {
                    assert(a[k] == a.drop_first()[k - 1]);
                    assert(b[k] == b.drop_first()[k - 1]);
                }
            }
        }
    }
}

/// Sorting gives [`sorted_of`].
pub proof fn lemma_sorted_of(a: Seq<Seq<char>>, s: Seq<Seq<char>>)
    requires
        sorted_strs(a),
        a.to_multiset() == s.to_multiset(),
    ensures
        a == sorted_of(s),
{
    let t = sorted_of(s);
    assert(sorted_strs(t) && t.to_multiset() == s.to_multiset());
    lemma_sorted_unique(a, t);
}

} // verus!
