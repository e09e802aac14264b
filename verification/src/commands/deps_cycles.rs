//! The cycle search over dependencies misses no cycle: when the
//! dependencies close a cycle, the searches from the sources record one.

use vstd::prelude::*;
use crate::commands::deps::{add_names, dep_adj, dep_edge, dep_found, dep_names, dep_sources, dep_succ, is_dep_cycle, DepView};
use crate::cycles::{adj_within, closed_walk, lemma_roots_no_closed_walk};
use crate::graph::{first_pos, lemma_first_pos, unmarked};

verus! {

/// The name a dependency contributes: its source, or its target.
pub open spec fn dep_end(d: DepView, second: bool) -> Seq<char> {
    if second { d.1 } else { d.0 }
}

/// Adding the names of the first `n` dependencies to `acc` keeps `acc` as a
/// prefix, takes in each of those names, and keeps the names distinct.
proof fn lemma_add_names(ds: Seq<DepView>, n: int, acc: Seq<Seq<char>>, second: bool)
    requires
        0 <= n <= ds.len(),
    ensures
        add_names(ds, n, acc, second).len() >= acc.len(),
        add_names(ds, n, acc, second).subrange(0, acc.len() as int) == acc,
        forall|i: int| 0 <= i < n ==> add_names(ds, n, acc, second).contains(#[trigger] dep_end(ds[i], second)),
        acc.no_duplicates() ==> add_names(ds, n, acc, second).no_duplicates(),
    decreases n,
{
    if n == 0 {
        assert(add_names(ds, n, acc, second).subrange(0, acc.len() as int) =~= acc);
    } else {
        lemma_add_names(ds, n - 1, acc, second);
        let prev = add_names(ds, n - 1, acc, second);
        let x = dep_end(ds[n - 1], second);
        let r = add_names(ds, n, acc, second);
        assert(x == if second { ds[n - 1].1 } else { ds[n - 1].0 });
        if prev.contains(x) {
            assert(r == prev);
        } else {
            assert(r == prev.push(x));
            assert(r.subrange(0, acc.len() as int) =~= prev.subrange(0, acc.len() as int));
            assert forall|i: int| 0 <= i < n implies r.contains(#[trigger] dep_end(ds[i], second)) by {
                if i < n - 1 {
                    let y = dep_end(ds[i], second);
                    assert(prev.contains(y));
                    let j = choose|j: int| 0 <= j < prev.len() && prev[j] == y;
                    assert(r[j] == y);
                } else {
                    assert(r[prev.len() as int] == x);
                }
            }
            if acc.no_duplicates() {
                assert forall|i: int, j: int| 0 <= i < r.len() && 0 <= j < r.len() && i != j implies r[i] != r[j] by {
                    if i < prev.len() && j < prev.len() {
                        assert(r[i] == prev[i] && r[j] == prev[j]);
                    } else if i < prev.len() {
                        assert(r[i] == prev[i]);
                    } else if j < prev.len() {
                        assert(r[j] == prev[j]);
                    }
                }
            }
        }
    }
}

/// A name that is the source of none of the first `n` dependencies has no
/// successors.
proof fn lemma_succ_empty(ds: Seq<DepView>, names: Seq<Seq<char>>, a: int, n: int)
    requires
        0 <= n <= ds.len(),
        forall|i: int| 0 <= i < n ==> (#[trigger] ds[i]).0 != names[a],
    ensures
        dep_succ(ds, names, a, n).len() == 0,
    decreases n,
{
    if n > 0 {
        lemma_succ_empty(ds, names, a, n - 1);
    }
}

/// The target of a dependency from the name at `a` is among its successors.
proof fn lemma_succ_contains(ds: Seq<DepView>, names: Seq<Seq<char>>, a: int, n: int, i: int, b: int)
    requires
        0 <= i < n <= ds.len(),
        ds[i].0 == names[a],
        first_pos(names, ds[i].1) == Some(b),
    ensures
        dep_succ(ds, names, a, n).contains(b as usize),
    decreases n,
{
    let r = dep_succ(ds, names, a, n);
    if i == n - 1 {
        assert(r[r.len() - 1] == b as usize);
    } else {
        lemma_succ_contains(ds, names, a, n - 1, i, b);
        let prev = dep_succ(ds, names, a, n - 1);
        let j = choose|j: int| 0 <= j < prev.len() && prev[j] == b as usize;
        assert(r[j] == prev[j]);
    }
}

/// The successors of a name are positions among the names.
proof fn lemma_succ_within(ds: Seq<DepView>, names: Seq<Seq<char>>, a: int, n: int)
    requires
        0 <= n <= ds.len(),
        names.len() <= usize::MAX,
    ensures
        forall|k: int| 0 <= k < dep_succ(ds, names, a, n).len() ==> (#[trigger] dep_succ(ds, names, a, n)[k]) < names.len(),
    decreases n,
{
    if n > 0 {
        lemma_succ_within(ds, names, a, n - 1);
        let prev = dep_succ(ds, names, a, n - 1);
        let r = dep_succ(ds, names, a, n);
        if ds[n - 1].0 == names[a] {
            match first_pos(names, ds[n - 1].1) {
                Some(b) => {
                    lemma_first_pos_found(names, ds[n - 1].1);
                    assert forall|k: int| 0 <= k < r.len() implies (#[trigger] r[k]) < names.len() by {
                        if k < prev.len() {
                            assert(r[k] == prev[k]);
                        }
                    }
                },
                None => {},
            }
        }
    }
}

/// A value at `j` has a first position, at or before `j`.
proof fn lemma_first_at_most(p: Seq<Seq<char>>, v: Seq<char>, j: int)
    requires
        0 <= j < p.len(),
        p[j] == v,
    ensures
        first_pos(p, v) is Some,
        0 <= first_pos(p, v).unwrap() <= j,
        p[first_pos(p, v).unwrap()] == v,
    decreases j,
{
    if exists|k: int| 0 <= k < j && p[k] == v {
        let k = choose|k: int| 0 <= k < j && p[k] == v;
        lemma_first_at_most(p, v, k);
    } else {
        lemma_first_pos(p, v, j);
    }
}

/// Where the first position of a value is found, it holds the value.
proof fn lemma_first_pos_found(p: Seq<Seq<char>>, v: Seq<char>)
    ensures
        p.contains(v) <==> first_pos(p, v) is Some,
        first_pos(p, v) is Some ==> 0 <= first_pos(p, v).unwrap() < p.len() && p[first_pos(p, v).unwrap()] == v,
{
    if p.contains(v) {
        let j = choose|j: int| 0 <= j < p.len() && p[j] == v;
        lemma_first_at_most(p, v, j);
    } else {
        assert(!(exists|i: int| 0 <= i < p.len() && p[i] == v));
    }
}

/// Among distinct values, the first position of a value is its position.
proof fn lemma_first_pos_distinct(p: Seq<Seq<char>>, j: int)
    requires
        p.no_duplicates(),
        0 <= j < p.len(),
    ensures
        first_pos(p, p[j]) == Some(j),
{
    assert forall|i: int| 0 <= i < j implies p[i] != p[j] by {}
    lemma_first_pos(p, p[j], j);
}

/// When the dependencies close a cycle, the depth-first searches from
/// their sources record at least one cycle. With [`is_dep_cycle`] holding
/// of every cycle recorded, the search records a cycle exactly when the
/// dependencies have one.
pub proof fn law_dep_cycle_found(ds: Seq<DepView>, c: Seq<Seq<char>>)
    requires
        is_dep_cycle(ds, c),
        dep_names(ds).len() <= usize::MAX,
    ensures
        dep_found(ds).len() > 0,
{
    let nd = ds.len() as int;
    let srcs = dep_sources(ds);
    let names = dep_names(ds);
    let ns = srcs.len() as int;
    let adj = dep_adj(ds);
    lemma_add_names(ds, nd, Seq::empty(), false);
    assert(Seq::<Seq<char>>::empty().no_duplicates());
    lemma_add_names(ds, nd, srcs, true);
    assert(names.subrange(0, ns) == srcs);
    // Every source stands among the first `ns` names; the other names
    // have no successors.
    assert forall|i: int| 0 <= i < nd implies exists|j: int| 0 <= j < ns && names[j] == (#[trigger] ds[i]).0 by {
        assert(srcs.contains(dep_end(ds[i], false)));
        let j = choose|j: int| 0 <= j < srcs.len() && srcs[j] == dep_end(ds[i], false);
        assert(names[j] == names.subrange(0, ns)[j]);
    }
    assert forall|a: int| ns <= a < names.len() implies dep_succ(ds, names, a, nd).len() == 0 by {
        assert forall|i: int| 0 <= i < nd implies (#[trigger] ds[i]).0 != names[a] by {
            let j = choose|j: int| 0 <= j < ns && names[j] == ds[i].0;
            assert(names[j] != names[a]);
        }
        lemma_succ_empty(ds, names, a, nd);
    }
    assert(adj_within(adj)) by {
        assert forall|a: int, k: int| 0 <= a < adj.len() && 0 <= k < adj[a].len() implies (#[trigger] adj[a][k]) < adj.len() by {
            lemma_succ_within(ds, names, a, nd);
            assert(adj[a] == dep_succ(ds, names, a, nd));
        }
    }
    // The cycle as a closed walk over positions.
    let w = c.map_values(|x: Seq<char>| first_pos(names, x).unwrap() as usize);
    let nc = c.len() as int;
    assert forall|k: int| 0 <= k < nc implies {
        &&& first_pos(names, #[trigger] c[k]) is Some
        &&& 0 <= first_pos(names, c[k]).unwrap() < ns
        &&& names[first_pos(names, c[k]).unwrap()] == c[k]
        &&& w[k] as int == first_pos(names, c[k]).unwrap()
    } by {
        let nxt = if k < nc - 1 { c[k + 1] } else { c[0] };
        if k < nc - 1 {
            assert(dep_edge(ds, c[k], c[k + 1]));
        } else {
            assert(dep_edge(ds, c.last(), c[0]));
        }
        let i = choose|i: int| 0 <= i < ds.len() && (#[trigger] ds[i]).0 == c[k] && ds[i].1 == nxt;
        let j = choose|j: int| 0 <= j < ns && names[j] == ds[i].0;
        lemma_first_pos_distinct(names, j);
    }
    assert forall|k: int| 0 <= k < nc implies adj[#[trigger] w[k] as int].contains(if k < nc - 1 { w[k + 1] } else { w[0] }) by {
        let nxt = if k < nc - 1 { c[k + 1] } else { c[0] };
        if k < nc - 1 {
            assert(dep_edge(ds, c[k], c[k + 1]));
            assert(first_pos(names, c[k + 1]) is Some);
        } else {
            assert(dep_edge(ds, c.last(), c[0]));
            assert(first_pos(names, c[0]) is Some);
        }
        let i = choose|i: int| 0 <= i < ds.len() && (#[trigger] ds[i]).0 == c[k] && ds[i].1 == nxt;
        assert(first_pos(names, c[k]) is Some);
        let a = w[k] as int;
        let b = first_pos(names, nxt).unwrap();
        lemma_succ_contains(ds, names, a, nd, i, b);
        assert(adj[a] == dep_succ(ds, names, a, nd));
    }
    assert(closed_walk(adj, w)) by {
        assert forall|i: int| 0 <= i < w.len() - 1 implies adj[#[trigger] w[i] as int].contains(w[i + 1]) by {
            assert(adj[w[i] as int].contains(if i < nc - 1 { w[i + 1] } else { w[0] }));
        }
        assert(adj[w[nc - 1] as int].contains(if nc - 1 < nc - 1 { w[nc] } else { w[0] }));
    }
    assert forall|i: int| 0 <= i < w.len() implies (#[trigger] w[i]) < ns by {
        assert(first_pos(names, c[i]) is Some);
    }
    if dep_found(ds).len() == 0 {
        lemma_roots_no_closed_walk(adj, ns, w);
    }
}

} // verus!
