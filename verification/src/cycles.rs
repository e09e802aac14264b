//! The depth-first cycle search finds a cycle exactly when there is one:
//! when it records none, the order in which it finishes the nodes puts
//! every successor before its predecessor, which no closed walk allows.

use vstd::prelude::*;
use crate::graph::{
    count_false, dfs_from, dfs_roots, dfs_succ, first_pos, graph_wf, has_node, index_of, is_link_cycle,
    lemma_count_false_le, lemma_count_false_mono, lemma_count_false_set, link_adj, link_step, node_ok, pos_in,
    unmarked, NodeModel,
};

verus! {

/// The nodes a search from `u` finishes, in the order it finishes them
/// (the successors' searches first, `u` last).
pub open spec fn fin_from(adj: Seq<Seq<usize>>, u: usize, marked: Seq<bool>, path: Seq<usize>, fuel: nat) -> Seq<usize>
    decreases fuel, 1int, 0int,
{
    if fuel == 0 {
        Seq::empty()
    } else {
        fin_succ(adj, u, 0, marked.update(u as int, true), path.push(u), fuel).push(u)
    }
}

/// The nodes finished while the successors of `u` from the `k`-th on are taken.
pub open spec fn fin_succ(adj: Seq<Seq<usize>>, u: usize, k: int, marked: Seq<bool>, path: Seq<usize>, fuel: nat) -> Seq<usize>
    decreases fuel, 0int, adj[u as int].len() - k,
{
    if fuel == 0 || k < 0 || k >= adj[u as int].len() {
        Seq::empty()
    } else {
        let v = adj[u as int][k];
        if !marked[v as int] {
            fin_from(adj, v, marked, path, (fuel - 1) as nat)
                + fin_succ(adj, u, k + 1, dfs_from(adj, v, marked, path, (fuel - 1) as nat).0, path, fuel)
        } else {
            fin_succ(adj, u, k + 1, marked, path, fuel)
        }
    }
}

/// The nodes finished by the searches started from `start` to `end`.
pub open spec fn fin_roots(adj: Seq<Seq<usize>>, start: int, end: int, marked: Seq<bool>) -> Seq<usize>
    decreases end - start,
{
    if start < 0 || start >= end {
        Seq::empty()
    } else if marked[start] {
        fin_roots(adj, start + 1, end, marked)
    } else {
        fin_from(adj, start as usize, marked, Seq::empty(), marked.len())
            + fin_roots(adj, start + 1, end, dfs_from(adj, start as usize, marked, Seq::empty(), marked.len()).0)
    }
}

/// Every successor list names positions below `n`.
pub open spec fn adj_within(adj: Seq<Seq<usize>>) -> bool {
    &&& adj.len() <= usize::MAX
    &&& forall|a: int, k: int| 0 <= a < adj.len() && 0 <= k < adj[a].len() ==> (#[trigger] adj[a][k]) < adj.len()
}

/// `m` marks at least what `m0` marks.
pub open spec fn covers(m0: Seq<bool>, m: Seq<bool>) -> bool {
    &&& m.len() == m0.len()
    &&& forall|x: int| 0 <= x < m0.len() && m0[x] ==> m[x]
}

/// The state of a search that has recorded no cycle: the marked nodes are
/// those on the path and those finished; the finished ones are distinct,
/// off the path, and each comes after all its successors.
pub open spec fn search_ok(adj: Seq<Seq<usize>>, m: Seq<bool>, p: Seq<usize>, f: Seq<usize>) -> bool {
    &&& m.len() == adj.len()
    &&& forall|i: int| 0 <= i < p.len() ==> (#[trigger] p[i]) < m.len()
    &&& forall|i: int| 0 <= i < f.len() ==> (#[trigger] f[i]) < m.len()
    &&& forall|x: int| 0 <= x < m.len() ==> (#[trigger] m[x] <==> (p.contains(x as usize) || f.contains(x as usize)))
    &&& forall|i: int, j: int| 0 <= i < f.len() && 0 <= j < p.len() ==> f[i] != p[j]
    &&& forall|i: int, j: int| 0 <= i < j < f.len() ==> f[i] != f[j]
    &&& succs_before(adj, f)
}

/// Each node of `f` comes after all its successors.
pub open spec fn succs_before(adj: Seq<Seq<usize>>, f: Seq<usize>) -> bool {
    forall|i: int, k: int| #![trigger adj[f[i] as int][k]] 0 <= i < f.len() && 0 <= k < adj[f[i] as int].len() ==>
        f.subrange(0, i).contains(adj[f[i] as int][k])
}

proof fn lemma_search_from(adj: Seq<Seq<usize>>, u: usize, m: Seq<bool>, p: Seq<usize>, fs: Seq<usize>, fuel: nat)
    requires
        adj_within(adj),
        search_ok(adj, m, p, fs),
        u < m.len(),
        !m[u as int],
        count_false(m) <= fuel,
    ensures
        dfs_from(adj, u, m, p, fuel).1.len() == 0 ==> {
            let r = dfs_from(adj, u, m, p, fuel).0;
            &&& search_ok(adj, r, p, fs + fin_from(adj, u, m, p, fuel))
            &&& covers(m, r)
            &&& r[u as int]
        },
    decreases fuel, 1int, 0int,
{
    lemma_count_false_set(m, u as int);
    let m1 = m.update(u as int, true);
    let p1 = p.push(u);
    assert(!p.contains(u));
    assert(!fs.contains(u));
    assert(search_ok(adj, m1, p1, fs)) by {
        assert forall|x: int| 0 <= x < m1.len() implies (#[trigger] m1[x] <==> (p1.contains(x as usize) || fs.contains(x as usize))) by {
            if x != u as int {
                assert(x as usize != u);
                assert(m1[x] == m[x]);
                assert(p1.contains(x as usize) <==> p.contains(x as usize)) by {
                    if p1.contains(x as usize) {
                        let j = choose|j: int| 0 <= j < p1.len() && p1[j] == x as usize;
                        assert(p1[p.len() as int] == u);
                        assert(j < p.len());
                        assert(p[j] == x as usize);
                    }
                    if p.contains(x as usize) {
                        let j = choose|j: int| 0 <= j < p.len() && p[j] == x as usize;
                        assert(p1[j] == x as usize);
                    }
                }
            } else {
                assert(p1[p.len() as int] == u);
            }
        }
        assert forall|i: int, j: int| 0 <= i < fs.len() && 0 <= j < p1.len() implies fs[i] != p1[j] by {
            if j < p.len() {
                assert(p1[j] == p[j]);
            } else {
                assert(p1[j] == u);
            }
        }
        assert forall|i: int| 0 <= i < p1.len() implies (#[trigger] p1[i]) < m1.len() by {
            if i < p.len() {
                assert(p1[i] == p[i]);
            }
        }
    }
    let r = dfs_succ(adj, u, 0, m1, p1, fuel);
    let f1 = fin_succ(adj, u, 0, m1, p1, fuel);
    assert(p1[p.len() as int] == u);
    lemma_search_succ(adj, u, 0, m1, p1, fs, fuel);
    if r.1.len() == 0 {
        let f = fs + f1;
        let f2 = f.push(u);
        assert(succs_before(adj, f));
        assert(fs + fin_from(adj, u, m, p, fuel) =~= f2);
        assert(p1.contains(u)) by {
            assert(p1[p.len() as int] == u);
        }
        assert(!f.contains(u)) by {
            if f.contains(u) {
                let i = choose|i: int| 0 <= i < f.len() && f[i] == u;
                assert(p1[p.len() as int] == u);
            }
        }
        assert forall|x: int| 0 <= x < r.0.len() implies (#[trigger] r.0[x] <==> (p.contains(x as usize) || f2.contains(x as usize))) by {
            assert(r.0[x] <==> (p1.contains(x as usize) || f.contains(x as usize)));
            if p1.contains(x as usize) {
                let j = choose|j: int| 0 <= j < p1.len() && p1[j] == x as usize;
                if j < p.len() {
                    assert(p[j] == x as usize);
                } else {
                    assert(f2[f.len() as int] == u);
                }
            }
            if f.contains(x as usize) {
                let j = choose|j: int| 0 <= j < f.len() && f[j] == x as usize;
                assert(f2[j] == x as usize);
            }
            if p.contains(x as usize) {
                let j = choose|j: int| 0 <= j < p.len() && p[j] == x as usize;
                assert(p1[j] == x as usize);
            }
            if f2.contains(x as usize) {
                let j = choose|j: int| 0 <= j < f2.len() && f2[j] == x as usize;
                if j < f.len() {
                    assert(f[j] == x as usize);
                } else {
                    assert(p1[p.len() as int] == u);
                }
            }
        }
        assert forall|i: int, j: int| 0 <= i < f2.len() && 0 <= j < p.len() implies f2[i] != p[j] by {
            assert(p1[j] == p[j]);
            if i < f.len() {
                assert(f2[i] == f[i]);
            } else {
                assert(!p.contains(u));
            }
        }
        assert forall|i: int, j: int| 0 <= i < j < f2.len() implies f2[i] != f2[j] by {
            if j == f.len() {
                assert(f2[i] == f[i]);
            } else {
                assert(f2[i] == f[i] && f2[j] == f[j]);
            }
        }
        assert forall|k: int| 0 <= k < adj[u as int].len() implies f.contains(#[trigger] adj[u as int][k]) by {}
        lemma_succs_push(adj, f, u);
        assert(succs_before(adj, f2));
        assert forall|i: int| 0 <= i < f2.len() implies (#[trigger] f2[i]) < r.0.len() by {
            if i < f.len() {
                assert(f2[i] == f[i]);
            }
        }
    }
}

proof fn lemma_succs_push(adj: Seq<Seq<usize>>, f: Seq<usize>, u: usize)
    requires
        succs_before(adj, f),
        forall|k: int| 0 <= k < adj[u as int].len() ==> f.contains(#[trigger] adj[u as int][k]),
    ensures
        succs_before(adj, f.push(u)),
{
    let f2 = f.push(u);
    assert forall|i: int, k: int| #![trigger adj[f2[i] as int][k]] 0 <= i < f2.len() && 0 <= k < adj[f2[i] as int].len() implies
        f2.subrange(0, i).contains(adj[f2[i] as int][k]) by {
        assert(f2.subrange(0, i) =~= f.subrange(0, i));
        if i < f.len() {
            assert(f2[i] == f[i]);
            assert(adj[f[i] as int][k] == adj[f2[i] as int][k]);
        } else {
            assert(f2[i] == u);
            assert(f.contains(adj[u as int][k]));
            assert(f.subrange(0, i) =~= f);
        }
    }
}

proof fn lemma_search_succ(adj: Seq<Seq<usize>>, u: usize, k: int, m: Seq<bool>, p: Seq<usize>, fs: Seq<usize>, fuel: nat)
    requires
        adj_within(adj),
        search_ok(adj, m, p, fs),
        u < m.len(),
        m[u as int],
        p.contains(u),
        0 <= k,
        count_false(m) < fuel,
    ensures
        dfs_succ(adj, u, k, m, p, fuel).1.len() == 0 ==> {
            let r = dfs_succ(adj, u, k, m, p, fuel).0;
            let f = fs + fin_succ(adj, u, k, m, p, fuel);
            &&& search_ok(adj, r, p, f)
            &&& covers(m, r)
            &&& forall|j: int| k <= j < adj[u as int].len() ==> f.contains(#[trigger] adj[u as int][j])
        },
    decreases fuel, 0int, adj[u as int].len() - k,
{
    if k >= adj[u as int].len() {
        assert(fs + fin_succ(adj, u, k, m, p, fuel) =~= fs);
    } else {
        let v = adj[u as int][k];
        assert(v < adj.len());
        if !m[v as int] {
            let d = dfs_from(adj, v, m, p, (fuel - 1) as nat);
            let fd = fin_from(adj, v, m, p, (fuel - 1) as nat);
            lemma_search_from(adj, v, m, p, fs, (fuel - 1) as nat);
            let rest = dfs_succ(adj, u, k + 1, d.0, p, fuel);
            let fr = fin_succ(adj, u, k + 1, d.0, p, fuel);
            if dfs_succ(adj, u, k, m, p, fuel).1.len() == 0 {
                assert(d.1.len() == 0);
                assert(rest.1.len() == 0);
                lemma_count_false_mono(m, d.0);
                lemma_search_succ(adj, u, k + 1, d.0, p, fs + fd, fuel);
                assert(fs + fin_succ(adj, u, k, m, p, fuel) =~= (fs + fd) + fr);
                let f = fs + fd + fr;
                assert(!p.contains(v)) by {
                    assert(!m[v as int]);
                }
                assert(d.0[v as int]);
                assert((fs + fd).contains(v));
                let jv = choose|j: int| 0 <= j < (fs + fd).len() && (fs + fd)[j] == v;
                assert(f[jv] == v);
                assert forall|j: int| k <= j < adj[u as int].len() implies f.contains(#[trigger] adj[u as int][j]) by {
                    if j == k {
                        assert(f[jv] == v);
                    }
                }
            }
        } else {
            let rest = dfs_succ(adj, u, k + 1, m, p, fuel);
            if dfs_succ(adj, u, k, m, p, fuel).1.len() == 0 {
                assert(first_pos(p, v) is None);
                assert(!p.contains(v));
                assert(fs.contains(v));
                lemma_search_succ(adj, u, k + 1, m, p, fs, fuel);
                let f = fs + fin_succ(adj, u, k, m, p, fuel);
                assert(fin_succ(adj, u, k, m, p, fuel) == fin_succ(adj, u, k + 1, m, p, fuel));
                let jv = choose|j: int| 0 <= j < fs.len() && fs[j] == v;
                assert(f[jv] == v);
                assert forall|j: int| k <= j < adj[u as int].len() implies f.contains(#[trigger] adj[u as int][j]) by {
                    if j == k {
                        assert(f[jv] == v);
                    }
                }
            }
        }
    }
}

proof fn lemma_search_roots(adj: Seq<Seq<usize>>, s: int, end: int, m: Seq<bool>, fs: Seq<usize>)
    requires
        adj_within(adj),
        search_ok(adj, m, Seq::empty(), fs),
        0 <= s <= end <= m.len(),
    ensures
        dfs_roots(adj, s, end, m).1.len() == 0 ==> {
            let r = dfs_roots(adj, s, end, m).0;
            &&& search_ok(adj, r, Seq::empty(), fs + fin_roots(adj, s, end, m))
            &&& covers(m, r)
            &&& forall|x: int| s <= x < end ==> #[trigger] r[x]
        },
    decreases end - s,
{
    if s == end {
        assert(fs + fin_roots(adj, s, end, m) =~= fs);
    } else if m[s] {
        lemma_search_roots(adj, s + 1, end, m, fs);
    } else {
        lemma_count_false_le(m);
        lemma_search_from(adj, s as usize, m, Seq::empty(), fs, m.len());
        let d = dfs_from(adj, s as usize, m, Seq::empty(), m.len());
        let fd = fin_from(adj, s as usize, m, Seq::empty(), m.len());
        if dfs_roots(adj, s, end, m).1.len() == 0 {
            assert(d.1.len() == 0);
            lemma_search_roots(adj, s + 1, end, d.0, fs + fd);
            assert(fs + fin_roots(adj, s, end, m) =~= (fs + fd) + fin_roots(adj, s + 1, end, d.0));
        }
    }
}

/// The position of `x` in `f`.
spec fn idx(f: Seq<usize>, x: usize) -> int {
    choose|i: int| 0 <= i < f.len() && f[i] == x
}

proof fn lemma_edge_earlier(adj: Seq<Seq<usize>>, f: Seq<usize>, x: usize, y: usize)
    requires
        succs_before(adj, f),
        forall|i: int, j: int| 0 <= i < j < f.len() ==> f[i] != f[j],
        f.contains(x),
        adj[x as int].contains(y),
    ensures
        f.contains(y),
        0 <= idx(f, y) < idx(f, x) < f.len(),
        f[idx(f, y)] == y,
        f[idx(f, x)] == x,
{
    let ix = idx(f, x);
    let k = choose|k: int| 0 <= k < adj[x as int].len() && adj[x as int][k] == y;
    assert(f[ix] == x);
    assert(adj[f[ix] as int][k] == y);
    assert(f.subrange(0, ix).contains(y));
    let j = choose|j: int| 0 <= j < ix && f.subrange(0, ix)[j] == y;
    assert(f[j] == y);
    let iy = idx(f, y);
    assert(f[iy] == y);
    if iy != j {
        if iy < j {
            assert(f[iy] != f[j]);
        } else {
            assert(f[j] != f[iy]);
        }
    }
}

/// `w` is a walk along the successor lists that leads back to its start.
pub open spec fn closed_walk(adj: Seq<Seq<usize>>, w: Seq<usize>) -> bool {
    &&& w.len() >= 1
    &&& forall|i: int| 0 <= i < w.len() - 1 ==> adj[#[trigger] w[i] as int].contains(w[i + 1])
    &&& adj[w.last() as int].contains(w[0])
}

/// With every node finished after its successors, no walk leads back to
/// where it started.
proof fn lemma_no_closed_walk(adj: Seq<Seq<usize>>, f: Seq<usize>, w: Seq<usize>)
    requires
        succs_before(adj, f),
        forall|i: int, j: int| 0 <= i < j < f.len() ==> f[i] != f[j],
        forall|i: int| 0 <= i < w.len() ==> f.contains(#[trigger] w[i]),
    ensures
        !closed_walk(adj, w),
{
    if closed_walk(adj, w) {
        let i0 = idx(f, w[0]);
        assert(f.contains(w[0]));
        assert forall|i: int| 0 <= i < w.len() implies #[trigger] idx(f, w[i]) <= i0 - i by {
            lemma_walk_down(adj, f, w, i);
        }
        let last = w.len() - 1;
        assert(f.contains(w[last]));
        lemma_edge_earlier(adj, f, w[last], w[0]);
        assert(idx(f, w[last]) <= i0 - last);
    }
}

proof fn lemma_walk_down(adj: Seq<Seq<usize>>, f: Seq<usize>, w: Seq<usize>, i: int)
    requires
        succs_before(adj, f),
        forall|a: int, b: int| 0 <= a < b < f.len() ==> f[a] != f[b],
        0 <= i < w.len(),
        forall|a: int| 0 <= a < w.len() ==> f.contains(#[trigger] w[a]),
        forall|a: int| 0 <= a < w.len() - 1 ==> adj[#[trigger] w[a] as int].contains(w[a + 1]),
    ensures
        idx(f, w[i]) <= idx(f, w[0]) - i,
    decreases i,
{
    if i > 0 {
        lemma_walk_down(adj, f, w, i - 1);
        assert(f.contains(w[i - 1]));
        assert(adj[w[i - 1] as int].contains(w[i]));
        lemma_edge_earlier(adj, f, w[i - 1], w[i]);
    }
}

/// When the searches from the positions below `end` record no cycle, no
/// walk along the successor lists through those positions leads back to
/// where it started.
pub(crate) proof fn lemma_roots_no_closed_walk(adj: Seq<Seq<usize>>, end: int, w: Seq<usize>)
    requires
        adj_within(adj),
        0 <= end <= adj.len(),
        dfs_roots(adj, 0, end, unmarked(adj.len())).1.len() == 0,
        forall|i: int| 0 <= i < w.len() ==> (#[trigger] w[i]) < end,
    ensures
        !closed_walk(adj, w),
{
    let n = adj.len();
    let m0 = unmarked(n);
    let e = Seq::<usize>::empty();
    assert(search_ok(adj, m0, e, e)) by {
        assert forall|x: int| 0 <= x < m0.len() implies (#[trigger] m0[x] <==> (e.contains(x as usize) || e.contains(x as usize))) by {}
    }
    lemma_search_roots(adj, 0, end, m0, e);
    let r = dfs_roots(adj, 0, end, m0).0;
    let f = e + fin_roots(adj, 0, end, m0);
    assert forall|i: int| 0 <= i < w.len() implies f.contains(#[trigger] w[i]) by {
        let x = w[i] as int;
        assert(r[x]);
        assert(r[x] <==> (e.contains(x as usize) || f.contains(x as usize)));
    }
    lemma_no_closed_walk(adj, f, w);
}

/// The search records a cycle exactly when the graph has one: when some
/// closed walk runs along links, the searches from every node record at
/// least one cycle.
pub proof fn law_cycle_found_when_cyclic(g: Seq<NodeModel>, c: Seq<Seq<u32>>)
    requires
        graph_wf(g),
        g.len() <= usize::MAX,
        is_link_cycle(g, c),
    ensures
        dfs_roots(link_adj(g), 0, g.len() as int, unmarked(g.len())).1.len() > 0,
{
    let adj = link_adj(g);
    let n = g.len();
    assert(adj_within(adj)) by {
        assert forall|a: int, k: int| 0 <= a < adj.len() && 0 <= k < adj[a].len() implies (#[trigger] adj[a][k]) < adj.len() by {
            assert(node_ok(g, g[a]));
            let y = g[a].links_to[k];
            assert(has_node(g, y));
            assert(adj[a][k] == pos_in(g, y));
        }
    }
    let w = c.map_values(|x: Seq<u32>| pos_in(g, x));
    assert forall|i: int| 0 <= i < c.len() implies #[trigger] index_of(g, c[i]) == Some(w[i] as int) && w[i] < n by {
        if i < c.len() - 1 {
            assert(link_step(g, c[i], c[i + 1]));
        } else {
            assert(link_step(g, c.last(), c[0]));
        }
    }
    assert forall|i: int| 0 <= i < w.len() - 1 implies adj[#[trigger] w[i] as int].contains(w[i + 1]) by {
        assert(link_step(g, c[i], c[i + 1]));
        assert(index_of(g, c[i]) == Some(w[i] as int));
        assert(index_of(g, c[i + 1]) == Some(w[i + 1] as int));
        let a = w[i] as int;
        let k = choose|k: int| 0 <= k < g[a].links_to.len() && g[a].links_to[k] == c[i + 1];
        assert(adj[a][k] == pos_in(g, c[i + 1]));
    }
    assert(adj[w.last() as int].contains(w[0])) by {
        let l = c.len() - 1;
        assert(link_step(g, c[l], c[0]));
        assert(index_of(g, c[l]) == Some(w[l] as int));
        assert(index_of(g, c[0]) == Some(w[0] as int));
        let a = w[l] as int;
        let k = choose|k: int| 0 <= k < g[a].links_to.len() && g[a].links_to[k] == c[0];
        assert(adj[a][k] == pos_in(g, c[0]));
    }
    assert forall|i: int| 0 <= i < w.len() implies (#[trigger] w[i]) < adj.len() by {
        assert(index_of(g, c[i]) == Some(w[i] as int));
    }
    assert(closed_walk(adj, w));
    if dfs_roots(adj, 0, n as int, unmarked(n)).1.len() == 0 {
        lemma_roots_no_closed_walk(adj, n as int, w);
    }
}

} // verus!
