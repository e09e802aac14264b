//! Dependency graph of documents: hierarchy (parent/children) and links.
//!
//! Nodes are kept in insertion order; every relation of a node is a list
//! without repetitions, so it behaves as a set.

use vstd::prelude::*;
use crate::text::{push_str, spec_decimal};
use crate::types::{spec_id_text, DocumentId};

verus! {

/// The identifiers held by a list of document identifiers.
pub open spec fn ids_of(v: Seq<DocumentId>) -> Seq<Seq<u32>> {
    v.map_values(|d: DocumentId| d@)
}

/// Mathematical model of a node.
pub struct NodeModel {
    pub id: Seq<u32>,
    pub links_to: Seq<Seq<u32>>,
    pub linked_from: Seq<Seq<u32>>,
    pub parent: Option<Seq<u32>>,
    pub children: Seq<Seq<u32>>,
}

/// Node of the dependency graph.
#[derive(Debug)]
pub struct GraphNode {
    /// Identifier of the document.
    pub id: DocumentId,
    /// Documents this node links to.
    pub links_to: Vec<DocumentId>,
    /// Documents that link to this node.
    pub linked_from: Vec<DocumentId>,
    /// Hierarchical parent.
    pub parent: Option<DocumentId>,
    /// Hierarchical children.
    pub children: Vec<DocumentId>,
}

impl GraphNode {
    /// The model of this node.
    pub open spec fn model(&self) -> NodeModel {
        NodeModel {
            id: self.id@,
            links_to: ids_of(self.links_to@),
            linked_from: ids_of(self.linked_from@),
            parent: match self.parent {
                Some(p) => Some(p@),
                None => None,
            },
            children: ids_of(self.children@),
        }
    }

    /// A node without relations.
    pub fn new(id: DocumentId) -> (n: GraphNode)
        ensures
            n.model() == (NodeModel {
                id: id@,
                links_to: Seq::empty(),
                linked_from: Seq::empty(),
                parent: None,
                children: Seq::empty(),
            }),
    {
        let n = GraphNode {
            id,
            links_to: Vec::new(),
            linked_from: Vec::new(),
            parent: None,
            children: Vec::new(),
        };
        assert(ids_of(n.links_to@) =~= Seq::empty());
        assert(ids_of(n.linked_from@) =~= Seq::empty());
        assert(ids_of(n.children@) =~= Seq::empty());
        n
    }
}

/// Dependency graph of documents.
#[derive(Debug)]
pub struct DependencyGraph {
    nodes: Vec<GraphNode>,
}

/// Position of `id` among the node identifiers, if present.
pub open spec fn index_of(g: Seq<NodeModel>, id: Seq<u32>) -> Option<int> {
    if exists|i: int| 0 <= i < g.len() && g[i].id == id {
        Some(choose|i: int| 0 <= i < g.len() && g[i].id == id)
    } else {
        None
    }
}

/// `id` is the identifier of a node.
pub open spec fn has_node(g: Seq<NodeModel>, id: Seq<u32>) -> bool {
    exists|i: int| 0 <= i < g.len() && g[i].id == id
}

/// The sequence has no repeated element.
pub open spec fn distinct(s: Seq<Seq<u32>>) -> bool {
    forall|i: int, j: int| 0 <= i < j < s.len() ==> s[i] != s[j]
}

/// `s` with `x` added at the end unless already present.
pub open spec fn set_insert(s: Seq<Seq<u32>>, x: Seq<u32>) -> Seq<Seq<u32>> {
    if s.contains(x) { s } else { s.push(x) }
}

/// Well-formedness of a graph model: identifiers are unique, relations have
/// no repetitions and name only nodes of the graph.
pub open spec fn graph_wf(g: Seq<NodeModel>) -> bool {
    &&& forall|i: int, j: int| 0 <= i < j < g.len() ==> g[i].id != g[j].id
    &&& forall|i: int| 0 <= i < g.len() ==> node_ok(g, #[trigger] g[i])
}

/// The relations of `n` have no repetitions and name only nodes of `g`.
pub open spec fn node_ok(g: Seq<NodeModel>, n: NodeModel) -> bool {
    &&& distinct(n.links_to)
    &&& distinct(n.linked_from)
    &&& distinct(n.children)
    &&& forall|k: int| 0 <= k < n.links_to.len() ==> has_node(g, #[trigger] n.links_to[k])
    &&& forall|k: int| 0 <= k < n.linked_from.len() ==> has_node(g, #[trigger] n.linked_from[k])
    &&& forall|k: int| 0 <= k < n.children.len() ==> has_node(g, #[trigger] n.children[k])
    &&& (n.parent matches Some(p) ==> has_node(g, p))
}

/// The node of `g` with identifier `id` (meaningful when it exists).
pub open spec fn node(g: Seq<NodeModel>, id: Seq<u32>) -> NodeModel {
    g[index_of(g, id).unwrap()]
}

/// A node without relations.
pub open spec fn empty_node(id: Seq<u32>) -> NodeModel {
    NodeModel { id, links_to: Seq::empty(), linked_from: Seq::empty(), parent: None, children: Seq::empty() }
}

/// `g` with a node for `id` added unless one exists.
pub open spec fn spec_add_node(g: Seq<NodeModel>, id: Seq<u32>) -> Seq<NodeModel> {
    if has_node(g, id) { g } else { g.push(empty_node(id)) }
}

/// `g` with `to` added to the links of `from` and `from` to the backlinks of
/// `to` (both nodes are created when missing).
pub open spec fn spec_add_link(g: Seq<NodeModel>, from: Seq<u32>, to: Seq<u32>) -> Seq<NodeModel> {
    let g1 = spec_add_node(spec_add_node(g, from), to);
    let i = index_of(g1, from).unwrap();
    let g2 = g1.update(i, NodeModel { links_to: set_insert(g1[i].links_to, to), ..g1[i] });
    let j = index_of(g2, to).unwrap();
    g2.update(j, NodeModel { linked_from: set_insert(g2[j].linked_from, from), ..g2[j] })
}

/// `g` with `id` placed under `parent`: the parent of `id` becomes `parent`
/// and `id` joins the children of `parent` (both nodes are created when missing).
pub open spec fn spec_add_with_parent(g: Seq<NodeModel>, id: Seq<u32>, parent: Option<Seq<u32>>) -> Seq<
    NodeModel,
> {
    let g1 = spec_add_node(g, id);
    match parent {
        None => g1,
        Some(p) => {
            let g2 = spec_add_node(g1, p);
            let i = index_of(g2, id).unwrap();
            let g3 = g2.update(i, NodeModel { parent: Some(p), ..g2[i] });
            let j = index_of(g3, p).unwrap();
            g3.update(j, NodeModel { children: set_insert(g3[j].children, id), ..g3[j] })
        },
    }
}

proof fn lemma_add_node_wf(g: Seq<NodeModel>, id: Seq<u32>)
    requires
        graph_wf(g),
        !has_node(g, id),
    ensures
        graph_wf(g.push(empty_node(id))),
        forall|x: Seq<u32>| has_node(g.push(empty_node(id)), x) <==> (has_node(g, x) || x == id),
{
    let g2 = g.push(empty_node(id));
    assert forall|x: Seq<u32>| has_node(g2, x) <==> (has_node(g, x) || x == id) by {
        if has_node(g, x) {
            let k = choose|k: int| 0 <= k < g.len() && g[k].id == x;
            assert(g2[k].id == x);
        }
        if x == id {
            assert(g2[g.len() as int].id == x);
        }
        if has_node(g2, x) {
            let k = choose|k: int| 0 <= k < g2.len() && g2[k].id == x;
            if k < g.len() {
                assert(g[k].id == x);
            }
        }
    }
    assert forall|i: int| 0 <= i < g2.len() implies node_ok(g2, #[trigger] g2[i]) by {
        if i < g.len() {
            assert(g2[i] == g[i]);
            assert(node_ok(g, g[i]));
        }
    }
    assert forall|i: int, j: int| 0 <= i < j < g2.len() implies g2[i].id != g2[j].id by {
        if j == g.len() {
            assert(g[i].id == g2[i].id);
        }
    }
}

/// Replacing a node by one with the same identifier whose relations are
/// repetition-free and name only existing nodes keeps the graph well formed.
proof fn lemma_update_wf(g: Seq<NodeModel>, i: int, n: NodeModel)
    requires
        graph_wf(g),
        0 <= i < g.len(),
        n.id == g[i].id,
        distinct(n.links_to),
        distinct(n.linked_from),
        distinct(n.children),
        forall|k: int| 0 <= k < n.links_to.len() ==> has_node(g, #[trigger] n.links_to[k]),
        forall|k: int| 0 <= k < n.linked_from.len() ==> has_node(g, #[trigger] n.linked_from[k]),
        forall|k: int| 0 <= k < n.children.len() ==> has_node(g, #[trigger] n.children[k]),
        n.parent matches Some(p) ==> has_node(g, p),
    ensures
        graph_wf(g.update(i, n)),
        forall|x: Seq<u32>| has_node(g.update(i, n), x) <==> has_node(g, x),
        forall|x: Seq<u32>| index_of(g.update(i, n), x) == index_of(g, x),
{
    let g2 = g.update(i, n);
    assert forall|x: Seq<u32>| has_node(g2, x) <==> has_node(g, x) by {
        if has_node(g, x) {
            let k = choose|k: int| 0 <= k < g.len() && g[k].id == x;
            assert(g2[k].id == x);
        }
        if has_node(g2, x) {
            let k = choose|k: int| 0 <= k < g2.len() && g2[k].id == x;
            assert(g[k].id == x);
        }
    }
    assert forall|x: Seq<u32>| index_of(g2, x) == index_of(g, x) by {
        if has_node(g, x) {
            let k = choose|k: int| 0 <= k < g.len() && g[k].id == x;
            assert(g2[k].id == x);
            lemma_index_of(g, x, k);
            lemma_index_of(g2, x, k);
        }
    }
    assert forall|a: int, b: int| 0 <= a < b < g2.len() implies g2[a].id != g2[b].id by {
        assert(g2[a].id == g[a].id);
        assert(g2[b].id == g[b].id);
    }
    assert forall|a: int| 0 <= a < g2.len() implies node_ok(g2, #[trigger] g2[a]) by {
        if a != i {
            assert(g2[a] == g[a]);
            assert(node_ok(g, g[a]));
        }
    }
}

impl View for DependencyGraph {
    type V = Seq<NodeModel>;

    closed spec fn view(&self) -> Seq<NodeModel> {
        self.nodes@.map_values(|n: GraphNode| n.model())
    }
}

proof fn lemma_index_of(g: Seq<NodeModel>, id: Seq<u32>, i: int)
    requires
        forall|a: int, b: int| 0 <= a < b < g.len() ==> g[a].id != g[b].id,
        0 <= i < g.len(),
        g[i].id == id,
    ensures
        index_of(g, id) == Some(i),
        has_node(g, id),
{
}

/// Whether `v` holds an identifier equal to `id`.
fn contains_id(v: &Vec<DocumentId>, id: &DocumentId) -> (r: bool)
    ensures
        r == ids_of(v@).contains(id@),
{
    let mut i: usize = 0;
    while i < v.len()
        invariant
            i <= v@.len(),
            forall|j: int| 0 <= j < i ==> v@[j]@ != id@,
        decreases v@.len() - i,
    {
        if v[i].same_as(id) {
            assert(ids_of(v@)[i as int] == id@);
            return true;
        }
        i = i + 1;
    }
    assert(!ids_of(v@).contains(id@)) by {
        if ids_of(v@).contains(id@) {
            let k = choose|k: int| 0 <= k < ids_of(v@).len() && ids_of(v@)[k] == id@;
            assert(v@[k]@ == id@);
        }
    }
    false
}

/// Adds `id` to `v` unless already present.
fn insert_id(v: &mut Vec<DocumentId>, id: DocumentId)
    ensures
        ids_of(final(v)@) == set_insert(ids_of(old(v)@), id@),
{
    if !contains_id(v, &id) {
        v.push(id);
        assert(ids_of(v@) =~= ids_of(old(v)@).push(id@));
    }
}

/// Copies of the identifiers in `v`.
fn copy_ids(v: &Vec<DocumentId>) -> (r: Vec<DocumentId>)
    ensures
        ids_of(r@) == ids_of(v@),
{
    let mut r: Vec<DocumentId> = Vec::new();
    let mut i: usize = 0;
    while i < v.len()
        invariant
            i <= v@.len(),
            ids_of(r@) == ids_of(v@).subrange(0, i as int),
        decreases v@.len() - i,
    {
        let c = v[i].copy();
        let ghost before = r@;
        r.push(c);
        assert(r@ == before.push(c));
        assert(ids_of(r@) =~= ids_of(before).push(c@));
        assert(ids_of(r@) =~= ids_of(v@).subrange(0, i + 1));
        i = i + 1;
    }
    assert(ids_of(v@).subrange(0, v@.len() as int) =~= ids_of(v@));
    r
}

proof fn lemma_set_insert_distinct(s: Seq<Seq<u32>>, x: Seq<u32>)
    requires
        distinct(s),
    ensures
        distinct(set_insert(s, x)),
        forall|y: Seq<u32>| #[trigger] set_insert(s, x).contains(y) <==> (s.contains(y) || y == x),
{
    if !s.contains(x) {
        assert forall|y: Seq<u32>| #[trigger] s.push(x).contains(y) <==> (s.contains(y) || y == x) by {
            if s.push(x).contains(y) {
                let k = choose|k: int| 0 <= k < s.push(x).len() && s.push(x)[k] == y;
                if k < s.len() {
                    assert(s[k] == y);
                }
            }
            if s.contains(y) {
                let k = choose|k: int| 0 <= k < s.len() && s[k] == y;
                assert(s.push(x)[k] == y);
            }
            if y == x {
                assert(s.push(x)[s.len() as int] == y);
            }
        }
    }
}

impl DependencyGraph {
    /// The graph is well formed.
    pub open spec fn wf(&self) -> bool {
        graph_wf(self@)
    }

    /// An empty graph.
    pub fn new() -> (g: DependencyGraph)
        ensures
            g.wf(),
            g@.len() == 0,
    {
        let g = DependencyGraph { nodes: Vec::new() };
        assert(g@ =~= Seq::<NodeModel>::empty());
        g
    }

    /// Index of the node with identifier `id`.
    fn find(&self, id: &DocumentId) -> (r: Option<usize>)
        requires
            self.wf(),
        ensures
            match r {
                Some(i) => i < self@.len() && self@[i as int].id == id@ && index_of(self@, id@)
                    == Some(i as int),
                None => !has_node(self@, id@) && index_of(self@, id@) is None,
            },
    {
        let mut i: usize = 0;
        while i < self.nodes.len()
            invariant
                i <= self@.len(),
                self@.len() == self.nodes@.len(),
                self.wf(),
                forall|j: int| 0 <= j < i ==> self@[j].id != id@,
            decreases self@.len() - i,
        {
            if self.nodes[i].id.same_as(id) {
                proof {
                    lemma_index_of(self@, id@, i as int);
                }
                return Some(i);
            }
            i = i + 1;
        }
        None
    }

    /// Adds a node for `id` unless one exists.
    pub fn add_node(&mut self, id: DocumentId)
        requires
            old(self).wf(),
        ensures
            final(self).wf(),
            final(self)@ == spec_add_node(old(self)@, id@),
    {
        match self.find(&id) {
            Some(_) => {},
            None => {
                let ghost g = self@;
                let n = GraphNode::new(id);
                self.nodes.push(n);
                assert(self@ =~= g.push(n.model()));
                proof {
                    lemma_add_node_wf(g, n.model().id);
                }
            },
        }
    }


    fn insert_link_to(&mut self, i: usize, to: DocumentId)
        requires
            old(self).wf(),
            i < old(self)@.len(),
            has_node(old(self)@, to@),
        ensures
            final(self).wf(),
            final(self)@ == old(self)@.update(
                i as int,
                NodeModel { links_to: set_insert(old(self)@[i as int].links_to, to@), ..old(self)@[i as int] },
            ),
            forall|x: Seq<u32>| has_node(final(self)@, x) <==> has_node(old(self)@, x),
            forall|x: Seq<u32>| index_of(final(self)@, x) == index_of(old(self)@, x),
    {
        let ghost g = self@;
        let ghost n = NodeModel { links_to: set_insert(g[i as int].links_to, to@), ..g[i as int] };
        insert_id(&mut self.nodes[i].links_to, to);
        proof {
            lemma_set_insert_distinct(g[i as int].links_to, to@);
            assert(self@ =~= g.update(i as int, n));
            lemma_update_wf(g, i as int, n);
        }
    }

    fn insert_linked_from(&mut self, i: usize, from: DocumentId)
        requires
            old(self).wf(),
            i < old(self)@.len(),
            has_node(old(self)@, from@),
        ensures
            final(self).wf(),
            final(self)@ == old(self)@.update(
                i as int,
                NodeModel { linked_from: set_insert(old(self)@[i as int].linked_from, from@), ..old(self)@[i as int] },
            ),
            forall|x: Seq<u32>| has_node(final(self)@, x) <==> has_node(old(self)@, x),
            forall|x: Seq<u32>| index_of(final(self)@, x) == index_of(old(self)@, x),
    {
        let ghost g = self@;
        let ghost n = NodeModel { linked_from: set_insert(g[i as int].linked_from, from@), ..g[i as int] };
        insert_id(&mut self.nodes[i].linked_from, from);
        proof {
            lemma_set_insert_distinct(g[i as int].linked_from, from@);
            assert(self@ =~= g.update(i as int, n));
            lemma_update_wf(g, i as int, n);
        }
    }

    fn insert_child(&mut self, i: usize, child: DocumentId)
        requires
            old(self).wf(),
            i < old(self)@.len(),
            has_node(old(self)@, child@),
        ensures
            final(self).wf(),
            final(self)@ == old(self)@.update(
                i as int,
                NodeModel { children: set_insert(old(self)@[i as int].children, child@), ..old(self)@[i as int] },
            ),
            forall|x: Seq<u32>| has_node(final(self)@, x) <==> has_node(old(self)@, x),
            forall|x: Seq<u32>| index_of(final(self)@, x) == index_of(old(self)@, x),
    {
        let ghost g = self@;
        let ghost n = NodeModel { children: set_insert(g[i as int].children, child@), ..g[i as int] };
        insert_id(&mut self.nodes[i].children, child);
        proof {
            lemma_set_insert_distinct(g[i as int].children, child@);
            assert(self@ =~= g.update(i as int, n));
            lemma_update_wf(g, i as int, n);
        }
    }

    fn set_parent(&mut self, i: usize, parent: DocumentId)
        requires
            old(self).wf(),
            i < old(self)@.len(),
            has_node(old(self)@, parent@),
        ensures
            final(self).wf(),
            final(self)@ == old(self)@.update(
                i as int,
                NodeModel { parent: Some(parent@), ..old(self)@[i as int] },
            ),
            forall|x: Seq<u32>| has_node(final(self)@, x) <==> has_node(old(self)@, x),
            forall|x: Seq<u32>| index_of(final(self)@, x) == index_of(old(self)@, x),
    {
        let ghost g = self@;
        let ghost n = NodeModel { parent: Some(parent@), ..g[i as int] };
        self.nodes[i].parent = Some(parent);
        proof {
            assert(self@ =~= g.update(i as int, n));
            lemma_update_wf(g, i as int, n);
        }
    }

    /// Adds a link from `from` to `to`, creating missing nodes.
    pub fn add_link(&mut self, from: DocumentId, to: DocumentId)
        requires
            old(self).wf(),
        ensures
            final(self).wf(),
            final(self)@ == spec_add_link(old(self)@, from@, to@),
    {
        let ghost g0 = self@;
        self.add_node(from.copy());
        proof { lemma_add_node_has(g0, from@); }
        let ghost g1 = self@;
        self.add_node(to.copy());
        proof { lemma_add_node_has(g1, to@); }
        let i = self.find(&from).unwrap();
        self.insert_link_to(i, to.copy());
        let j = self.find(&to).unwrap();
        self.insert_linked_from(j, from);
    }

    /// Adds `id` (and `parent`, when given) and records the hierarchy.
    pub fn add_node_with_parent(&mut self, id: DocumentId, parent: Option<DocumentId>)
        requires
            old(self).wf(),
        ensures
            final(self).wf(),
            final(self)@ == spec_add_with_parent(
                old(self)@,
                id@,
                match parent {
                    Some(p) => Some(p@),
                    None => None,
                },
            ),
    {
        let ghost g0 = self@;
        self.add_node(id.copy());
        proof { lemma_add_node_has(g0, id@); }
        match parent {
            None => {},
            Some(p) => {
                let ghost g1 = self@;
                self.add_node(p.copy());
                proof { lemma_add_node_has(g1, p@); }
                let i = self.find(&id).unwrap();
                self.set_parent(i, p.copy());
                let j = self.find(&p).unwrap();
                self.insert_child(j, id);
            },
        }
    }
}

proof fn lemma_add_node_has(g: Seq<NodeModel>, id: Seq<u32>)
    requires
        graph_wf(g),
    ensures
        has_node(spec_add_node(g, id), id),
        forall|x: Seq<u32>| has_node(g, x) ==> has_node(spec_add_node(g, id), x),
{
    if !has_node(g, id) {
        lemma_add_node_wf(g, id);
    }
}


/// The identifiers of the nodes of `g` that satisfy `f`, in node order.
pub open spec fn select_ids(g: Seq<NodeModel>, f: spec_fn(NodeModel) -> bool) -> Seq<Seq<u32>>
    decreases g.len(),
{
    if g.len() == 0 {
        Seq::empty()
    } else {
        let r = select_ids(g.drop_last(), f);
        if f(g.last()) { r.push(g.last().id) } else { r }
    }
}

/// A node without parent.
pub open spec fn is_root(n: NodeModel) -> bool {
    n.parent is None
}

/// A node without parent that is not the master document `0`.
pub open spec fn is_orphan(n: NodeModel) -> bool {
    n.parent is None && n.id != seq![0u32]
}

/// A node without children.
pub open spec fn is_leaf(n: NodeModel) -> bool {
    n.children.len() == 0
}

/// Total number of links of the nodes.
pub open spec fn spec_edge_total(g: Seq<NodeModel>) -> nat
    decreases g.len(),
{
    if g.len() == 0 { 0 } else { spec_edge_total(g.drop_last()) + g.last().links_to.len() }
}

enum Selection {
    Roots,
    Orphans,
    Leaves,
}

spec fn selection_pred(s: Selection) -> spec_fn(NodeModel) -> bool {
    match s {
        Selection::Roots => |n: NodeModel| is_root(n),
        Selection::Orphans => |n: NodeModel| is_orphan(n),
        Selection::Leaves => |n: NodeModel| is_leaf(n),
    }
}

impl DependencyGraph {
    fn select(&self, which: Selection) -> (r: Vec<DocumentId>)
        ensures
            ids_of(r@) == select_ids(self@, selection_pred(which)),
    {
        let mut r: Vec<DocumentId> = Vec::new();
        let mut i: usize = 0;
        while i < self.nodes.len()
            invariant
                i <= self@.len(),
                self@.len() == self.nodes@.len(),
                ids_of(r@) == select_ids(self@.subrange(0, i as int), selection_pred(which)),
            decreases self@.len() - i,
        {
            let n = &self.nodes[i];
            let keep = match which {
                Selection::Roots => n.parent.is_none(),
                Selection::Orphans => n.parent.is_none() && !n.id.is_master(),
                Selection::Leaves => n.children.len() == 0,
            };
            proof {
                assert(self@.subrange(0, i + 1).drop_last() =~= self@.subrange(0, i as int));
                assert(self@[i as int] == n.model());
                assert(ids_of(n.children@).len() == n.children@.len());
            }
            if keep {
                let c = n.id.copy();
                let ghost before = r@;
                r.push(c);
                assert(ids_of(r@) =~= ids_of(before).push(c@));
            }
            i = i + 1;
        }
        assert(self@.subrange(0, self@.len() as int) =~= self@);
        r
    }

    /// Nodes without parent.
    pub fn roots(&self) -> (r: Vec<DocumentId>)
        ensures
            ids_of(r@) == select_ids(self@, |n: NodeModel| is_root(n)),
    {
        self.select(Selection::Roots)
    }

    /// Nodes without parent, other than the master document.
    pub fn orphans(&self) -> (r: Vec<DocumentId>)
        ensures
            ids_of(r@) == select_ids(self@, |n: NodeModel| is_orphan(n)),
    {
        self.select(Selection::Orphans)
    }

    /// Nodes without children.
    pub fn leaves(&self) -> (r: Vec<DocumentId>)
        ensures
            ids_of(r@) == select_ids(self@, |n: NodeModel| is_leaf(n)),
    {
        self.select(Selection::Leaves)
    }

    /// Number of nodes.
    pub fn node_count(&self) -> (n: usize)
        ensures
            n == self@.len(),
    {
        self.nodes.len()
    }

    /// Number of links.
    pub fn edge_count(&self) -> (n: usize)
        requires
            spec_edge_total(self@) <= usize::MAX,
        ensures
            n == spec_edge_total(self@),
    {
        let mut total: usize = 0;
        let mut i: usize = 0;
        while i < self.nodes.len()
            invariant
                i <= self@.len(),
                self@.len() == self.nodes@.len(),
                total == spec_edge_total(self@.subrange(0, i as int)),
                spec_edge_total(self@) <= usize::MAX,
            decreases self@.len() - i,
        {
            proof {
                assert(self@.subrange(0, i + 1).drop_last() =~= self@.subrange(0, i as int));
                lemma_edge_total_prefix(self@, i as int + 1);
                assert(self@[i as int].links_to.len() == self.nodes@[i as int].links_to@.len());
            }
            total = total + self.nodes[i].links_to.len();
            i = i + 1;
        }
        assert(self@.subrange(0, self@.len() as int) =~= self@);
        total
    }

    /// Children of `id` (empty when `id` is not a node).
    pub fn get_children(&self, id: &DocumentId) -> (r: Vec<DocumentId>)
        requires
            self.wf(),
        ensures
            ids_of(r@) == match index_of(self@, id@) {
                Some(i) => self@[i].children,
                None => Seq::empty(),
            },
    {
        match self.find(id) {
            Some(i) => copy_ids(&self.nodes[i].children),
            None => {
                let r: Vec<DocumentId> = Vec::new();
                assert(ids_of(r@) =~= Seq::empty());
                r
            },
        }
    }

    /// Nodes that link to `id` (empty when `id` is not a node).
    pub fn get_backlinks(&self, id: &DocumentId) -> (r: Vec<DocumentId>)
        requires
            self.wf(),
        ensures
            ids_of(r@) == match index_of(self@, id@) {
                Some(i) => self@[i].linked_from,
                None => Seq::empty(),
            },
    {
        match self.find(id) {
            Some(i) => copy_ids(&self.nodes[i].linked_from),
            None => {
                let r: Vec<DocumentId> = Vec::new();
                assert(ids_of(r@) =~= Seq::empty());
                r
            },
        }
    }
}

proof fn lemma_edge_total_prefix(g: Seq<NodeModel>, k: int)
    requires
        0 <= k <= g.len(),
    ensures
        spec_edge_total(g.subrange(0, k)) <= spec_edge_total(g),
    decreases g.len() - k,
{
    if k < g.len() {
        lemma_edge_total_prefix(g, k + 1);
        assert(g.subrange(0, k + 1).drop_last() =~= g.subrange(0, k));
    } else {
        assert(g.subrange(0, k) =~= g);
    }
}


/// Children of `a` in `g` (empty when `a` is not a node).
pub open spec fn kids(g: Seq<NodeModel>, a: Seq<u32>) -> Seq<Seq<u32>> {
    match index_of(g, a) {
        Some(i) => g[i].children,
        None => Seq::empty(),
    }
}

/// `p` is a path of at least one parent-to-child step.
pub open spec fn child_path(g: Seq<NodeModel>, p: Seq<Seq<u32>>) -> bool {
    p.len() >= 2 && forall|i: int| #![trigger kids(g, p[i])] 0 <= i < p.len() - 1 ==> kids(g, p[i]).contains(p[i + 1])
}

/// `b` is a (strict) descendant of `a`.
pub open spec fn is_descendant(g: Seq<NodeModel>, a: Seq<u32>, b: Seq<u32>) -> bool {
    exists|p: Seq<Seq<u32>>| #[trigger] child_path(g, p) && p[0] == a && p.last() == b
}

proof fn lemma_distinct_nodes_bound(g: Seq<NodeModel>, s: Seq<Seq<u32>>)
    requires
        distinct(s),
        forall|k: int| 0 <= k < s.len() ==> has_node(g, #[trigger] s[k]),
    ensures
        s.len() <= g.len(),
{
    let ids = g.map_values(|n: NodeModel| n.id);
    assert(s.no_duplicates());
    s.unique_seq_to_set();
    ids.lemma_cardinality_of_set();
    assert(s.to_set().subset_of(ids.to_set())) by {
        assert forall|x: Seq<u32>| s.to_set().contains(x) implies ids.to_set().contains(x) by {
            let k = choose|k: int| 0 <= k < s.len() && s[k] == x;
            assert(has_node(g, s[k]));
            let i = choose|i: int| 0 <= i < g.len() && g[i].id == x;
            assert(ids[i] == x);
        }
    }
    vstd::set_lib::lemma_len_subset(s.to_set(), ids.to_set());
}

proof fn lemma_closed_contains(g: Seq<NodeModel>, a: Seq<u32>, s: Seq<Seq<u32>>, p: Seq<Seq<u32>>)
    requires
        forall|k: Seq<u32>| kids(g, a).contains(k) ==> s.contains(k),
        forall|y: Seq<u32>, k: Seq<u32>| s.contains(y) && kids(g, y).contains(k) ==> s.contains(k),
        child_path(g, p),
        p[0] == a,
    ensures
        s.contains(p.last()),
    decreases p.len(),
{
    if p.len() == 2 {
        assert(kids(g, p[0]).contains(p[1]));
    } else {
        let q = p.drop_last();
        assert forall|i: int| 0 <= i < q.len() - 1 implies kids(g, q[i]).contains(q[i + 1]) by {
            assert(kids(g, p[i]).contains(p[i + 1]));
        }
        lemma_closed_contains(g, a, s, q);
        assert(kids(g, p[p.len() - 2]).contains(p[p.len() - 1]));
    }
}

proof fn lemma_kids_nodes(g: Seq<NodeModel>, a: Seq<u32>)
    requires
        graph_wf(g),
    ensures
        forall|k: int| 0 <= k < kids(g, a).len() ==> has_node(g, #[trigger] kids(g, a)[k]),
        distinct(kids(g, a)),
{
    match index_of(g, a) {
        Some(i) => {
            assert(0 <= i < g.len() && g[i].id == a);
            assert(node_ok(g, g[i]));
        },
        None => {},
    }
}

/// One step of a breadth-first walk over `(queue, listed)`: the first
/// queued node is dropped when it is listed already, else it is listed and
/// its children are queued after the rest.
pub open spec fn bfs_step(g: Seq<NodeModel>, s: (Seq<Seq<u32>>, Seq<Seq<u32>>)) -> (Seq<Seq<u32>>, Seq<Seq<u32>>) {
    if s.0.len() == 0 {
        s
    } else if s.1.contains(s.0[0]) {
        (s.0.drop_first(), s.1)
    } else {
        (s.0.drop_first() + kids(g, s.0[0]), s.1.push(s.0[0]))
    }
}

/// `n` steps of the breadth-first walk from `s`.
pub open spec fn bfs_steps(g: Seq<NodeModel>, s: (Seq<Seq<u32>>, Seq<Seq<u32>>), n: nat) -> (Seq<Seq<u32>>, Seq<Seq<u32>>)
    decreases n,
{
    if n == 0 { s } else { bfs_step(g, bfs_steps(g, s, (n - 1) as nat)) }
}

impl DependencyGraph {
    /// All strict descendants of `id`, each once, in breadth-first order:
    /// the walk that starts with the children of `id` queued, takes queued
    /// nodes first in first out, and lists each node the first time it is
    /// taken, queueing its children, until the queue is empty.
    #[verifier::rlimit(80)]
    #[verifier::spinoff_prover]
    pub fn get_descendants(&self, id: &DocumentId) -> (r: Vec<DocumentId>)
        requires
            self.wf(),
        ensures
            distinct(ids_of(r@)),
            forall|x: Seq<u32>| ids_of(r@).contains(x) <==> is_descendant(self@, id@, x),
            exists|n: nat| bfs_steps(self@, (kids(self@, id@), Seq::empty()), n) == (Seq::<Seq<u32>>::empty(), ids_of(r@)),
    {
        let ghost g = self@;
        let ghost a = id@;
        let mut result: Vec<DocumentId> = Vec::new();
        let mut queue: Vec<DocumentId> = Vec::new();
        let mut head: usize = 0;
        match self.find(id) {
            Some(i) => {
                queue = copy_ids(&self.nodes[i].children);
            },
            None => {},
        }
        proof {
            lemma_kids_nodes(g, a);
            assert(ids_of(queue@) == kids(g, a));
            assert(ids_of(result@) =~= Seq::<Seq<u32>>::empty());
            assert forall|k: int| 0 <= k < ids_of(queue@).len() implies is_descendant(g, a, #[trigger] ids_of(queue@)[k]) by {
                assert(kids(g, a).contains(ids_of(queue@)[k]));
                let pth = seq![a, ids_of(queue@)[k]];
                assert(kids(g, pth[0]).contains(pth[1]));
                assert(child_path(g, pth));
            }
            assert(ids_of(queue@).subrange(0, queue@.len() as int) =~= ids_of(queue@));
        }
        let ghost mut steps: nat = 0;
        assert(bfs_steps(g, (kids(g, a), Seq::empty()), steps) == (ids_of(queue@).subrange(head as int, queue@.len() as int), ids_of(result@)));
        while head < queue.len()
            invariant
                g == self@,
                a == id@,
                bfs_steps(g, (kids(g, a), Seq::empty()), steps) == (ids_of(queue@).subrange(head as int, queue@.len() as int), ids_of(result@)),
                self.wf(),
                head <= queue@.len(),
                distinct(ids_of(result@)),
                forall|k: int| 0 <= k < ids_of(result@).len() ==> has_node(g, #[trigger] ids_of(result@)[k]),
                forall|k: int| 0 <= k < ids_of(queue@).len() ==> has_node(g, #[trigger] ids_of(queue@)[k]),
                forall|k: int| 0 <= k < ids_of(result@).len() ==> is_descendant(g, a, #[trigger] ids_of(result@)[k]),
                forall|k: int| 0 <= k < ids_of(queue@).len() ==> is_descendant(g, a, #[trigger] ids_of(queue@)[k]),
                forall|k: Seq<u32>| kids(g, a).contains(k) ==> ids_of(result@).contains(k)
                    || ids_of(queue@).subrange(head as int, queue@.len() as int).contains(k),
                forall|y: Seq<u32>, k: Seq<u32>| ids_of(result@).contains(y) && kids(g, y).contains(k)
                    ==> ids_of(result@).contains(k) || ids_of(queue@).subrange(head as int, queue@.len() as int).contains(k),
            decreases g.len() - ids_of(result@).len(), queue@.len() - head,
        {
            proof {
                lemma_distinct_nodes_bound(g, ids_of(result@));
            }
            let ghost r0 = ids_of(result@);
            let ghost q0 = ids_of(queue@);
            let ghost cur = q0[head as int];
            let ghost pend0 = q0.subrange(head as int, q0.len() as int);
            let current = queue[head].copy();
            head = head + 1;
            proof {
                assert forall|k: Seq<u32>| pend0.contains(k) implies k == cur
                    || q0.subrange(head as int, q0.len() as int).contains(k) by {
                    let j = choose|j: int| 0 <= j < pend0.len() && pend0[j] == k;
                    if j > 0 {
                        assert(q0.subrange(head as int, q0.len() as int)[j - 1] == k);
                    }
                }
            }
            if !contains_id(&result, &current) {
                let c2 = current.copy();
                result.push(current);
                assert(ids_of(result@) =~= r0.push(cur));
                proof {
                    assert forall|i: int, j: int| 0 <= i < j < ids_of(result@).len() implies
                        ids_of(result@)[i] != ids_of(result@)[j] by {
                        if j == r0.len() {
                            assert(r0[i] != cur);
                        }
                    }
                    lemma_kids_nodes(g, cur);
                    let p0 = choose|p: Seq<Seq<u32>>| #[trigger] child_path(g, p) && p[0] == a && p.last() == cur;
                    assert forall|k: int| 0 <= k < kids(g, cur).len() implies is_descendant(g, a, #[trigger] kids(g, cur)[k]) by {
                        let x = kids(g, cur)[k];
                        let p1 = p0.push(x);
                        assert forall|i: int| 0 <= i < p1.len() - 1 implies kids(g, p1[i]).contains(p1[i + 1]) by {
                            if i < p0.len() - 1 {
                                assert(kids(g, p0[i]).contains(p0[i + 1]));
                            } else {
                                assert(kids(g, cur).contains(x));
                            }
                        }
                        assert(child_path(g, p1));
                    }
                }
                match self.find(&c2) {
                    Some(i) => {
                        let kids_v = copy_ids(&self.nodes[i].children);
                        let mut j: usize = 0;
                        let ghost qb = ids_of(queue@);
                        while j < kids_v.len()
                            invariant
                                j <= kids_v@.len(),
                                ids_of(kids_v@) == kids(g, cur),
                                ids_of(queue@) == qb + kids(g, cur).subrange(0, j as int),
                            decreases kids_v@.len() - j,
                        {
                            let ghost before = queue@;
                            let k = kids_v[j].copy();
                            queue.push(k);
                            assert(ids_of(queue@) =~= ids_of(before).push(k@));
                            assert(ids_of(queue@) =~= qb + kids(g, cur).subrange(0, j + 1));
                            j = j + 1;
                        }
                        assert(kids(g, cur).subrange(0, kids(g, cur).len() as int) =~= kids(g, cur));
                    },
                    None => {
                        assert(kids(g, cur) =~= Seq::<Seq<u32>>::empty());
                        assert(ids_of(queue@) =~= q0 + kids(g, cur));
                    },
                }
                proof {
                    let q1 = ids_of(queue@);
                    assert(q1 =~= q0 + kids(g, cur));
                    let r1 = ids_of(result@);
                    assert forall|k: Seq<u32>| q0.subrange(head as int, q0.len() as int).contains(k)
                        implies q1.subrange(head as int, q1.len() as int).contains(k) by {
                        let j = choose|j: int| 0 <= j < q0.len() - head && q0.subrange(head as int, q0.len() as int)[j] == k;
                        assert(q1.subrange(head as int, q1.len() as int)[j] == k);
                    }
                    assert forall|k: Seq<u32>| kids(g, cur).contains(k)
                        implies q1.subrange(head as int, q1.len() as int).contains(k) by {
                        let j = choose|j: int| 0 <= j < kids(g, cur).len() && kids(g, cur)[j] == k;
                        assert(q1.subrange(head as int, q1.len() as int)[q0.len() - head + j] == k);
                    }
                    assert forall|k: Seq<u32>| r0.contains(k) implies r1.contains(k) by {
                        let j = choose|j: int| 0 <= j < r0.len() && r0[j] == k;
                        assert(r1[j] == k);
                    }
                    assert(r1[r0.len() as int] == cur);
                    assert forall|y: Seq<u32>| r1.contains(y) implies r0.contains(y) || y == cur by {
                        let j = choose|j: int| 0 <= j < r1.len() && r1[j] == y;
                        if j < r0.len() {
                            assert(r0[j] == y);
                        }
                    }
                    lemma_distinct_nodes_bound(g, r1);
                }
            } else {
                proof {
                    assert(ids_of(result@).contains(cur));
                }
            }
            proof {
                let pend1 = ids_of(queue@).subrange(head as int, queue@.len() as int);
                assert(pend0[0] == cur);
                if r0.contains(cur) {
                    assert(pend1 =~= pend0.drop_first());
                } else {
                    assert(pend1 =~= pend0.drop_first() + kids(g, cur));
                }
                assert(bfs_step(g, (pend0, r0)) == (pend1, ids_of(result@)));
                steps = steps + 1;
            }
        }
        proof {
            assert(ids_of(queue@).subrange(head as int, queue@.len() as int) =~= Seq::<Seq<u32>>::empty());
            let r = ids_of(result@);
            assert forall|x: Seq<u32>| is_descendant(g, a, x) implies r.contains(x) by {
                let p = choose|p: Seq<Seq<u32>>| #[trigger] child_path(g, p) && p[0] == a && p.last() == x;
                lemma_closed_contains(g, a, r, p);
            }
            assert forall|x: Seq<u32>| r.contains(x) implies is_descendant(g, a, x) by {
                let j = choose|j: int| 0 <= j < r.len() && r[j] == x;
            }
        }
        result
    }
}


/// The parent of `x` in `g`, if `x` is a node with a parent.
pub open spec fn parent_of(g: Seq<NodeModel>, x: Seq<u32>) -> Option<Seq<u32>> {
    match index_of(g, x) {
        Some(i) => g[i].parent,
        None => None,
    }
}

/// The chain of parents above `x`, followed for at most `fuel` steps.
pub open spec fn ancestors_within(g: Seq<NodeModel>, x: Seq<u32>, fuel: nat) -> Seq<Seq<u32>>
    decreases fuel,
{
    if fuel == 0 {
        Seq::empty()
    } else {
        match parent_of(g, x) {
            Some(p) => seq![p] + ancestors_within(g, p, (fuel - 1) as nat),
            None => Seq::empty(),
        }
    }
}

/// `g` links `x` to `y`.
pub open spec fn link_step(g: Seq<NodeModel>, x: Seq<u32>, y: Seq<u32>) -> bool {
    match index_of(g, x) {
        Some(i) => g[i].links_to.contains(y),
        None => false,
    }
}

/// `c` is a closed walk along links: each element links to the next one
/// and the last links back to the first.
pub open spec fn is_link_cycle(g: Seq<NodeModel>, c: Seq<Seq<u32>>) -> bool {
    &&& c.len() >= 1
    &&& forall|i: int| #![trigger c[i]] 0 <= i < c.len() - 1 ==> link_step(g, c[i], c[i + 1])
    &&& link_step(g, c.last(), c[0])
}

/// Every list of `cs` holds the identifiers of a link cycle.
#[verifier::opaque]
pub open spec fn cycles_ok(g: Seq<NodeModel>, cs: Seq<Vec<DocumentId>>) -> bool {
    forall|k: int| 0 <= k < cs.len() ==> is_link_cycle(g, ids_of(#[trigger] cs[k]@))
}

fn push_cycle(cycles: &mut Vec<Vec<DocumentId>>, cyc: Vec<DocumentId>, Ghost(g): Ghost<Seq<NodeModel>>)
    requires
        cycles_ok(g, old(cycles)@),
        is_link_cycle(g, ids_of(cyc@)),
    ensures
        final(cycles)@ == old(cycles)@.push(cyc),
        cycles_ok(g, final(cycles)@),
{
    let ghost before = cycles@;
    cycles.push(cyc);
    proof {
        reveal(cycles_ok);
        assert forall|j: int| 0 <= j < cycles@.len() implies is_link_cycle(g, ids_of(#[trigger] cycles@[j]@)) by {
            if j < before.len() {
                assert(cycles@[j] == before[j]);
            }
        }
    }
}

/// First position of `v` in `p`.
pub open spec fn first_pos<A>(p: Seq<A>, v: A) -> Option<int> {
    if exists|i: int| 0 <= i < p.len() && p[i] == v {
        Some(choose|i: int| 0 <= i < p.len() && p[i] == v && forall|j: int| 0 <= j < i ==> p[j] != v)
    } else {
        None
    }
}

/// `s` is the first position of `v` in `p`.
pub proof fn lemma_first_pos<A>(p: Seq<A>, v: A, s: int)
    requires
        0 <= s < p.len(),
        p[s] == v,
        forall|j: int| 0 <= j < s ==> p[j] != v,
    ensures
        first_pos(p, v) == Some(s),
{
    let i = choose|i: int| 0 <= i < p.len() && p[i] == v && forall|j: int| 0 <= j < i ==> p[j] != v;
    assert(0 <= i < p.len() && p[i] == v && forall|j: int| 0 <= j < i ==> p[j] != v);
    if i < s {
        assert(p[i] != v);
    }
    if s < i {
        assert(p[s] != v);
    }
}

/// Depth-first search from `u` over the successor lists `adj`, with at
/// most `fuel` nested searches: `u` is marked and put at the end of the
/// path, then its successors are taken in turn (see [`dfs_succ`]). The
/// marks afterwards, and the cycles found in the order they were found.
pub open spec fn dfs_from(adj: Seq<Seq<usize>>, u: usize, marked: Seq<bool>, path: Seq<usize>, fuel: nat)
    -> (Seq<bool>, Seq<Seq<usize>>)
    decreases fuel, 1int, 0int,
{
    if fuel == 0 {
        (marked, Seq::empty())
    } else {
        dfs_succ(adj, u, 0, marked.update(u as int, true), path.push(u), fuel)
    }
}

/// The successors of `u` from the `k`-th on: an unmarked successor is
/// searched in turn; a marked one that stands on the path closes a cycle,
/// the part of the path from its first position on.
pub open spec fn dfs_succ(adj: Seq<Seq<usize>>, u: usize, k: int, marked: Seq<bool>, path: Seq<usize>, fuel: nat)
    -> (Seq<bool>, Seq<Seq<usize>>)
    decreases fuel, 0int, adj[u as int].len() - k,
{
    if fuel == 0 || k < 0 || k >= adj[u as int].len() {
        (marked, Seq::empty())
    } else {
        let v = adj[u as int][k];
        if !marked[v as int] {
            let (m2, c2) = dfs_from(adj, v, marked, path, (fuel - 1) as nat);
            let (m3, c3) = dfs_succ(adj, u, k + 1, m2, path, fuel);
            (m3, c2 + c3)
        } else {
            let (m3, c3) = dfs_succ(adj, u, k + 1, marked, path, fuel);
            match first_pos(path, v) {
                Some(s) => (m3, seq![path.subrange(s, path.len() as int)] + c3),
                None => (m3, c3),
            }
        }
    }
}

/// The searches started, in order, from every unmarked position `s` with
/// `start <= s < end`, each with as much fuel as there are positions.
pub open spec fn dfs_roots(adj: Seq<Seq<usize>>, start: int, end: int, marked: Seq<bool>) -> (Seq<bool>, Seq<Seq<usize>>)
    decreases end - start,
{
    if start < 0 || start >= end {
        (marked, Seq::empty())
    } else if marked[start] {
        dfs_roots(adj, start + 1, end, marked)
    } else {
        let (m2, c2) = dfs_from(adj, start as usize, marked, Seq::empty(), marked.len());
        let (m3, c3) = dfs_roots(adj, start + 1, end, m2);
        (m3, c2 + c3)
    }
}

/// `n` unmarked positions.
pub open spec fn unmarked(n: nat) -> Seq<bool> {
    Seq::new(n, |i: int| false)
}

/// The position of the node `id` (0 when there is none).
pub open spec fn pos_in(g: Seq<NodeModel>, id: Seq<u32>) -> usize {
    match index_of(g, id) {
        Some(i) => i as usize,
        None => 0,
    }
}

/// The successor lists of the graph: the positions of the nodes each node
/// links to, in link order.
pub open spec fn link_adj(g: Seq<NodeModel>) -> Seq<Seq<usize>> {
    Seq::new(g.len(), |u: int| g[u].links_to.map_values(|w: Seq<u32>| pos_in(g, w)))
}

/// `after` is `before` followed by one list of identifiers for each
/// cycle of positions in `found`.
pub open spec fn extends_by(g: Seq<NodeModel>, before: Seq<Vec<DocumentId>>, after: Seq<Vec<DocumentId>>, found: Seq<Seq<usize>>) -> bool {
    &&& after.len() == before.len() + found.len()
    &&& forall|j: int| 0 <= j < before.len() ==> #[trigger] after[j] == before[j]
    &&& forall|j: int| before.len() <= j < after.len() ==> ids_of(#[trigger] after[j]@) == path_ids(g, found[j - before.len()])
}

proof fn lemma_extends_push(g: Seq<NodeModel>, before: Seq<Vec<DocumentId>>, mid: Seq<Vec<DocumentId>>,
    found: Seq<Seq<usize>>, cyc: Vec<DocumentId>, c: Seq<usize>)
    requires
        extends_by(g, before, mid, found),
        ids_of(cyc@) == path_ids(g, c),
    ensures
        extends_by(g, before, mid.push(cyc), found.push(c)),
{
    let after = mid.push(cyc);
    let f2 = found.push(c);
    assert forall|j: int| 0 <= j < before.len() implies #[trigger] after[j] == before[j] by {
        assert(after[j] == mid[j]);
    }
    assert forall|j: int| before.len() <= j < after.len() implies ids_of(#[trigger] after[j]@) == path_ids(g, f2[j - before.len()]) by {
        if j < mid.len() {
            assert(after[j] == mid[j]);
            assert(f2[j - before.len()] == found[j - before.len()]);
        } else {
            assert(after[j] == cyc);
        }
    }
}

proof fn lemma_extends_trans(g: Seq<NodeModel>, a: Seq<Vec<DocumentId>>, b: Seq<Vec<DocumentId>>, c: Seq<Vec<DocumentId>>,
    f1: Seq<Seq<usize>>, f2: Seq<Seq<usize>>)
    requires
        extends_by(g, a, b, f1),
        extends_by(g, b, c, f2),
    ensures
        extends_by(g, a, c, f1 + f2),
{
    let f = f1 + f2;
    assert forall|j: int| 0 <= j < a.len() implies #[trigger] c[j] == a[j] by {
        assert(c[j] == b[j]);
        assert(b[j] == a[j]);
    }
    assert forall|j: int| a.len() <= j < c.len() implies ids_of(#[trigger] c[j]@) == path_ids(g, f[j - a.len()]) by {
        if j < b.len() {
            assert(c[j] == b[j]);
            assert(f[j - a.len()] == f1[j - a.len()]);
        } else {
            assert(f[j - a.len()] == f2[j - b.len()]);
        }
    }
}

pub proof fn lemma_count_false_le(v: Seq<bool>)
    ensures
        count_false(v) <= v.len(),
    decreases v.len(),
{
    if v.len() > 0 {
        lemma_count_false_le(v.drop_last());
    }
}

/// Number of unvisited entries.
pub open spec fn count_false(v: Seq<bool>) -> nat
    decreases v.len(),
{
    if v.len() == 0 { 0 } else { count_false(v.drop_last()) + (if v.last() { 0nat } else { 1nat }) }
}

pub proof fn lemma_count_false_mono(a: Seq<bool>, b: Seq<bool>)
    requires
        a.len() == b.len(),
        forall|i: int| 0 <= i < a.len() && a[i] ==> b[i],
    ensures
        count_false(b) <= count_false(a),
    decreases a.len(),
{
    if a.len() > 0 {
        lemma_count_false_mono(a.drop_last(), b.drop_last());
    }
}

pub proof fn lemma_count_false_set(a: Seq<bool>, k: int)
    requires
        0 <= k < a.len(),
        !a[k],
    ensures
        count_false(a.update(k, true)) + 1 == count_false(a),
    decreases a.len(),
{
    if k < a.len() - 1 {
        lemma_count_false_set(a.drop_last(), k);
        assert(a.update(k, true).drop_last() =~= a.drop_last().update(k, true));
    } else {
        assert(a.update(k, true).drop_last() =~= a.drop_last());
    }
}

/// The identifiers of the nodes at the given positions.
pub open spec fn path_ids(g: Seq<NodeModel>, p: Seq<usize>) -> Seq<Seq<u32>> {
    p.map_values(|i: usize| g[i as int].id)
}

/// Consecutive positions of `p` are joined by links.
pub open spec fn link_path(g: Seq<NodeModel>, p: Seq<usize>) -> bool {
    &&& forall|i: int| 0 <= i < p.len() ==> (#[trigger] p[i]) < g.len()
    &&& forall|i: int| #![trigger p[i]] 0 <= i < p.len() - 1 ==> link_step(g, g[p[i] as int].id, g[p[i + 1] as int].id)
}

impl DependencyGraph {
    /// The chain of parents above `id`, nearest first. The chain is followed
    /// for at most as many steps as there are nodes.
    pub fn get_ancestors(&self, id: &DocumentId) -> (r: Vec<DocumentId>)
        requires
            self.wf(),
        ensures
            ids_of(r@) == ancestors_within(self@, id@, self@.len()),
    {
        let ghost g = self@;
        let mut result: Vec<DocumentId> = Vec::new();
        let mut current = id.copy();
        let mut fuel: usize = self.nodes.len();
        assert(ids_of(result@) =~= Seq::<Seq<u32>>::empty());
        while fuel > 0
            invariant
                g == self@,
                self.wf(),
                fuel <= g.len(),
                ids_of(result@) + ancestors_within(g, current@, fuel as nat) == ancestors_within(g, id@, g.len()),
            decreases fuel,
        {
            match self.find(&current) {
                Some(i) => {
                    match &self.nodes[i].parent {
                        Some(p) => {
                            let pc = p.copy();
                            let ghost before = ids_of(result@);
                            result.push(pc.copy());
                            assert(ids_of(result@) =~= before.push(pc@));
                            assert(ids_of(result@) + ancestors_within(g, pc@, (fuel - 1) as nat)
                                =~= before + ancestors_within(g, current@, fuel as nat));
                            current = pc;
                            fuel = fuel - 1;
                        },
                        None => {
                            assert(ids_of(result@) =~= ids_of(result@) + ancestors_within(g, current@, fuel as nat));
                            return result;
                        },
                    }
                },
                None => {
                    assert(ids_of(result@) =~= ids_of(result@) + ancestors_within(g, current@, fuel as nat));
                    return result;
                },
            }
        }
        assert(ids_of(result@) =~= ids_of(result@) + ancestors_within(g, current@, 0));
        result
    }

    /// Cycles of links found by a depth-first search from every node in
    /// node order. Every reported cycle is a closed walk along links, and
    /// none is reported exactly when the links close no walk.
    pub fn detect_cycles(&self) -> (r: Vec<Vec<DocumentId>>)
        requires
            self.wf(),
        ensures
            forall|k: int| 0 <= k < r@.len() ==> is_link_cycle(self@, ids_of(#[trigger] r@[k]@)),
            r@.len() == 0 <==> (forall|c: Seq<Seq<u32>>| !#[trigger] is_link_cycle(self@, c)),
            extends_by(self@, Seq::empty(), r@,
                dfs_roots(link_adj(self@), 0, self@.len() as int, unmarked(self@.len())).1),
    {
        let ghost g = self@;
        let ghost adj = link_adj(g);
        let n = self.nodes.len();
        let mut visited: Vec<bool> = Vec::new();
        let mut i: usize = 0;
        while i < n
            invariant
                i <= n,
                n == self@.len(),
                visited@ =~= unmarked(i as nat),
            decreases n - i,
        {
            visited.push(false);
            i = i + 1;
        }
        let ghost tot = dfs_roots(adj, 0, n as int, visited@);
        let ghost mut found: Seq<Seq<usize>> = Seq::empty();
        let mut cycles: Vec<Vec<DocumentId>> = Vec::new();
        let mut path: Vec<usize> = Vec::new();
        let mut u: usize = 0;
        proof {
            reveal(cycles_ok);
            assert(found + dfs_roots(adj, 0, n as int, visited@).1 =~= tot.1);
        }
        while u < n
            invariant
                u <= n,
                n == self@.len(),
                g == self@,
                adj == link_adj(g),
                self.wf(),
                visited@.len() == n,
                path@.len() == 0,
                cycles_ok(self@, cycles@),
                dfs_roots(adj, u as int, n as int, visited@).0 == tot.0,
                found + dfs_roots(adj, u as int, n as int, visited@).1 == tot.1,
                extends_by(g, Seq::empty(), cycles@, found),
            decreases n - u,
        {
            if !visited[u] {
                let ghost vb = visited@;
                let ghost cb = cycles@;
                proof {
                    lemma_count_false_le(vb);
                    assert(path@ =~= Seq::<usize>::empty());
                }
                self.dfs(u, &mut visited, &mut path, &mut cycles, Ghost(vb.len()));
                proof {
                    let d = dfs_from(adj, u, vb, Seq::empty(), vb.len());
                    let rest = dfs_roots(adj, u + 1, n as int, d.0);
                    lemma_extends_trans(g, Seq::empty(), cb, cycles@, found, d.1);
                    assert(found + d.1 + rest.1 =~= found + (d.1 + rest.1));
                    found = found + d.1;
                }
            }
            u = u + 1;
        }
        proof {
            reveal(cycles_ok);
            assert(found =~= tot.1);
            if cycles@.len() > 0 {
                assert(is_link_cycle(self@, ids_of(cycles@[0]@)));
            } else {
                assert forall|c: Seq<Seq<u32>>| !#[trigger] is_link_cycle(self@, c) by {
                    if is_link_cycle(self@, c) {
                        crate::cycles::law_cycle_found_when_cyclic(self@, c);
                    }
                }
            }
        }
        cycles
    }

    #[verifier::rlimit(80)]
    #[verifier::spinoff_prover]
    fn dfs(
        &self,
        u: usize,
        visited: &mut Vec<bool>,
        path: &mut Vec<usize>,
        cycles: &mut Vec<Vec<DocumentId>>,
        Ghost(budget): Ghost<nat>,
    )
        requires
            budget >= count_false(old(visited)@),
            self.wf(),
            u < self@.len(),
            old(visited)@.len() == self@.len(),
            !old(visited)@[u as int],
            link_path(self@, old(path)@),
            old(path)@.len() > 0 ==> link_step(self@, self@[old(path)@.last() as int].id, self@[u as int].id),
            cycles_ok(self@, old(cycles)@),
        ensures
            final(visited)@.len() == self@.len(),
            forall|k: int| 0 <= k < old(visited)@.len() && old(visited)@[k] ==> final(visited)@[k],
            final(visited)@[u as int],
            final(path)@ == old(path)@,
            cycles_ok(self@, final(cycles)@),
            final(visited)@ == dfs_from(link_adj(self@), u, old(visited)@, old(path)@, budget).0,
            extends_by(self@, old(cycles)@, final(cycles)@, dfs_from(link_adj(self@), u, old(visited)@, old(path)@, budget).1),
        decreases budget,
    {
        let ghost g = self@;
        let ghost adj = link_adj(g);
        let ghost v0 = visited@;
        let ghost p0 = path@;
        let ghost c0 = cycles@;
        visited.set(u, true);
        proof {
            lemma_count_false_set(v0, u as int);
        }
        let ghost v1 = visited@;
        path.push(u);
        proof {
            lemma_link_path_push(g, p0, u);
        }
        let ghost pu = path@;
        let ghost tot = dfs_succ(adj, u, 0, v1, pu, budget);
        let ghost mut found: Seq<Seq<usize>> = Seq::empty();
        proof {
            assert(v1 == v0.update(u as int, true));
            assert(tot == dfs_from(adj, u, v0, p0, budget));
            assert(found + tot.1 =~= tot.1);
        }
        let mut k: usize = 0;
        while k < self.nodes[u].links_to.len()
            invariant
                g == self@,
                adj == link_adj(g),
                self.wf(),
                u < g.len(),
                visited@.len() == g.len(),
                forall|j: int| 0 <= j < v1.len() && v1[j] ==> visited@[j],
                forall|j: int| 0 <= j < v0.len() && v0[j] ==> visited@[j],
                visited@[u as int],
                v0.len() == g.len(),
                budget >= count_false(v0),
                count_false(v1) < count_false(v0),
                v1.len() == g.len(),
                path@ == pu,
                pu == p0.push(u),
                link_path(g, path@),
                cycles_ok(g, cycles@),
                budget > 0,
                dfs_succ(adj, u, k as int, visited@, pu, budget).0 == tot.0,
                found + dfs_succ(adj, u, k as int, visited@, pu, budget).1 == tot.1,
                extends_by(g, c0, cycles@, found),
            decreases self.nodes@[u as int].links_to@.len() - k,
        {
            let ghost w = self.nodes@[u as int].links_to@[k as int]@;
            proof {
                assert(node_ok(g, g[u as int]));
                assert(g[u as int].links_to[k as int] == w);
                assert(has_node(g, w));
                lemma_index_of(g, g[u as int].id, u as int);
                assert(g[u as int].links_to.contains(w));
            }
            let v = self.find(&self.nodes[u].links_to[k]).unwrap();
            proof {
                lemma_index_of(g, g[u as int].id, u as int);
                assert(g[v as int].id == w);
                assert(link_step(g, g[u as int].id, g[v as int].id));
                assert(adj[u as int][k as int] == v);
            }
            let ghost vb = visited@;
            let ghost cb = cycles@;
            if !visited[v] {
                proof {
                    lemma_count_false_mono(v1, visited@);
                    assert(count_false(visited@) < count_false(v0));
                }
                self.dfs(v, visited, path, cycles, Ghost((budget - 1) as nat));
                proof {
                    let d = dfs_from(adj, v, vb, pu, (budget - 1) as nat);
                    let rest = dfs_succ(adj, u, k + 1, d.0, pu, budget);
                    lemma_extends_trans(g, c0, cb, cycles@, found, d.1);
                    assert(found + d.1 + rest.1 =~= found + (d.1 + rest.1));
                    found = found + d.1;
                }
            } else {
                match position(path, v) {
                    Some(start) => {
                        let cyc = self.cycle_from(path, start);
                        push_cycle(cycles, cyc, Ghost(g));
                        proof {
                            let c = pu.subrange(start as int, pu.len() as int);
                            let rest = dfs_succ(adj, u, k + 1, vb, pu, budget);
                            lemma_extends_push(g, c0, cb, found, cyc, c);
                            assert(found.push(c) + rest.1 =~= found + (seq![c] + rest.1));
                            found = found.push(c);
                        }
                    },
                    None => {},
                }
            }
            k = k + 1;
        }
        proof {
            assert(found =~= tot.1);
        }
        path.pop();
        assert(path@ =~= p0);
    }

    /// The identifiers of `path[start..]`, which close a cycle when the last
    /// node links back to `path[start]`.
    fn cycle_from(&self, path: &Vec<usize>, start: usize) -> (cyc: Vec<DocumentId>)
        requires
            link_path(self@, path@),
            start < path@.len(),
            link_step(self@, self@[path@.last() as int].id, self@[path@[start as int] as int].id),
        ensures
            is_link_cycle(self@, ids_of(cyc@)),
            ids_of(cyc@) == path_ids(self@, path@.subrange(start as int, path@.len() as int)),
    {
        let ghost g = self@;
        let mut cyc: Vec<DocumentId> = Vec::new();
        let mut t = start;
        assert(ids_of(cyc@) =~= path_ids(g, path@.subrange(start as int, t as int)));
        while t < path.len()
            invariant
                g == self@,
                start <= t <= path@.len(),
                link_path(g, path@),
                g.len() == self.nodes@.len(),
                ids_of(cyc@) == path_ids(g, path@.subrange(start as int, t as int)),
            decreases path@.len() - t,
        {
            assert(path@[t as int] < g.len());
            let c = self.nodes[path[t]].id.copy();
            let ghost before = cyc@;
            cyc.push(c);
            assert(ids_of(cyc@) =~= ids_of(before).push(c@));
            assert(c@ == g[path@[t as int] as int].id);
            assert(path_ids(g, path@.subrange(start as int, t + 1)) =~= path_ids(g, path@.subrange(start as int, t as int)).push(g[path@[t as int] as int].id));
            t = t + 1;
        }
        proof {
            let c = ids_of(cyc@);
            let ps = path@.subrange(start as int, path@.len() as int);
            assert(c == path_ids(g, ps));
            assert forall|i: int| #![trigger c[i]] 0 <= i < c.len() - 1 implies link_step(g, c[i], c[i + 1]) by {
                assert(path@[start + i] == ps[i]);
                assert(path@[start + i + 1] == ps[i + 1]);
                assert(link_step(g, g[path@[start + i] as int].id, g[path@[start + i + 1] as int].id));
            }
        }
        cyc
    }
}

proof fn lemma_link_path_push(g: Seq<NodeModel>, p: Seq<usize>, u: usize)
    requires
        link_path(g, p),
        u < g.len(),
        p.len() > 0 ==> link_step(g, g[p.last() as int].id, g[u as int].id),
    ensures
        link_path(g, p.push(u)),
{
    let q = p.push(u);
    assert forall|i: int| #![trigger q[i]] 0 <= i < q.len() - 1 implies link_step(g, g[q[i] as int].id, g[q[i + 1] as int].id) by {
        if i < p.len() - 1 {
            assert(p[i] == q[i]);
            assert(p[i + 1] == q[i + 1]);
        }
    }
    assert forall|i: int| 0 <= i < q.len() implies (#[trigger] q[i]) < g.len() by {
        if i < p.len() {
            assert(q[i] == p[i]);
        }
    }
}

/// First position of `v` in `path`.
fn position(path: &Vec<usize>, v: usize) -> (r: Option<usize>)
    ensures
        r matches Some(i) ==> i < path@.len() && path@[i as int] == v,
        match r {
            Some(i) => first_pos(path@, v) == Some(i as int),
            None => first_pos(path@, v) is None,
        },
{
    let mut start: usize = 0;
    while start < path.len()
        invariant
            start <= path@.len(),
            forall|j: int| 0 <= j < start ==> path@[j] != v,
        decreases path@.len() - start,
    {
        if path[start] == v {
            proof {
                lemma_first_pos(path@, v, start as int);
            }
            return Some(start);
        }
        start = start + 1;
    }
    None
}


/// Lines `"\n    {src}{arrow}{t}"` for every target `t`, concatenated.
pub open spec fn edge_lines(src: Seq<u32>, targets: Seq<Seq<u32>>, arrow: Seq<char>) -> Seq<char>
    decreases targets.len(),
{
    if targets.len() == 0 {
        Seq::empty()
    } else {
        edge_lines(src, targets.drop_last(), arrow) + seq!['\n', ' ', ' ', ' ', ' '] + spec_id_text(src)
            + arrow + spec_id_text(targets.last())
    }
}

/// Arrow of a hierarchy edge.
pub open spec fn solid_arrow() -> Seq<char> {
    seq![' ', '-', '-', '>', ' ']
}

/// Arrow of a link edge.
pub open spec fn dotted_arrow() -> Seq<char> {
    seq![' ', '-', '.', '-', '>', ' ']
}

/// Mermaid lines of the nodes of `g`: for each node its hierarchy edges,
/// then its link edges.
pub open spec fn mermaid_body(g: Seq<NodeModel>) -> Seq<char>
    decreases g.len(),
{
    if g.len() == 0 {
        Seq::empty()
    } else {
        let n = g.last();
        mermaid_body(g.drop_last()) + edge_lines(n.id, n.children, solid_arrow()) + edge_lines(
            n.id,
            n.links_to,
            dotted_arrow(),
        )
    }
}

/// Header of a Mermaid flowchart.
pub open spec fn mermaid_header() -> Seq<char> {
    seq!['g', 'r', 'a', 'p', 'h', ' ', 'T', 'D']
}

fn append_edge_lines(out: &mut String, src: &DocumentId, targets: &Vec<DocumentId>, arrow: &str)
    ensures
        final(out)@ == old(out)@ + edge_lines(src@, ids_of(targets@), arrow@),
{
    let src_text = src.to_text();
    let mut i: usize = 0;
    while i < targets.len()
        invariant
            i <= targets@.len(),
            src_text@ == spec_id_text(src@),
            out@ == old(out)@ + edge_lines(src@, ids_of(targets@).subrange(0, i as int), arrow@),
        decreases targets@.len() - i,
    {
        let ghost before = out@;
        push_str(out, "\n    ");
        push_str(out, src_text.as_str());
        push_str(out, arrow);
        let t = targets[i].to_text();
        push_str(out, t.as_str());
        proof {
            reveal_strlit("\n    ");
            let sub = ids_of(targets@).subrange(0, i + 1);
            assert(sub.drop_last() =~= ids_of(targets@).subrange(0, i as int));
            assert(out@ =~= old(out)@ + edge_lines(src@, sub, arrow@));
        }
        i = i + 1;
    }
    assert(ids_of(targets@).subrange(0, targets@.len() as int) =~= ids_of(targets@));
}

impl DependencyGraph {
    /// Mermaid flowchart of the graph: `graph TD`, then for every node its
    /// hierarchy edges (`-->`) and its link edges (`-.->`), one per line.
    pub fn to_mermaid(&self) -> (s: String)
        ensures
            s@ == mermaid_header() + mermaid_body(self@),
    {
        let mut out = String::new();
        push_str(&mut out, "graph TD");
        proof {
            reveal_strlit("graph TD");
            assert(out@ =~= mermaid_header());
            assert(self@.subrange(0, 0) =~= Seq::<NodeModel>::empty());
        }
        let mut i: usize = 0;
        while i < self.nodes.len()
            invariant
                i <= self@.len(),
                self@.len() == self.nodes@.len(),
                out@ == mermaid_header() + mermaid_body(self@.subrange(0, i as int)),
            decreases self@.len() - i,
        {
            let n = &self.nodes[i];
            append_edge_lines(&mut out, &n.id, &n.children, " --> ");
            append_edge_lines(&mut out, &n.id, &n.links_to, " -.-> ");
            proof {
                let sub = self@.subrange(0, i + 1);
                assert(sub.drop_last() =~= self@.subrange(0, i as int));
                assert(sub.last() == n.model());
                reveal_strlit(" --> ");
                reveal_strlit(" -.-> ");
                assert(" --> "@ =~= solid_arrow());
                assert(" -.-> "@ =~= dotted_arrow());
                assert(out@ =~= mermaid_header() + mermaid_body(sub));
            }
            i = i + 1;
        }
        assert(self@.subrange(0, self@.len() as int) =~= self@);
        out
    }
}


// ─────────────────────────────────────────────────────────────────────────
// Laws
// ─────────────────────────────────────────────────────────────────────────

/// Every link is recorded on both ends: `y` is among the links of `x`
/// exactly when `x` is among the backlinks of `y`.
pub open spec fn links_symmetric(g: Seq<NodeModel>) -> bool {
    forall|x: Seq<u32>, y: Seq<u32>| has_node(g, x) && has_node(g, y) ==>
        (#[trigger] node(g, x).links_to.contains(y) <==> #[trigger] node(g, y).linked_from.contains(x))
}

/// Every node with a parent is among the children of that parent.
pub open spec fn parent_recorded(g: Seq<NodeModel>) -> bool {
    forall|x: Seq<u32>| has_node(g, x) && (#[trigger] node(g, x)).parent is Some ==>
        node(g, node(g, x).parent.unwrap()).children.contains(x)
}

proof fn lemma_node_update(g: Seq<NodeModel>, i: int, n: NodeModel, x: Seq<u32>)
    requires
        graph_wf(g),
        0 <= i < g.len(),
        n.id == g[i].id,
        has_node(g, x),
    ensures
        node(g.update(i, n), x) == (if x == g[i].id { n } else { node(g, x) }),
        has_node(g.update(i, n), x),
{
    let k = choose|k: int| 0 <= k < g.len() && g[k].id == x;
    lemma_index_of(g, x, k);
    let g2 = g.update(i, n);
    assert(g2[k].id == x);
    assert forall|a: int, b: int| 0 <= a < b < g2.len() implies g2[a].id != g2[b].id by {
        assert(g2[a].id == g[a].id);
        assert(g2[b].id == g[b].id);
    }
    lemma_index_of(g2, x, k);
    if x == g[i].id {
        lemma_index_of(g, x, i);
    }
}

proof fn lemma_node_push(g: Seq<NodeModel>, id: Seq<u32>, x: Seq<u32>)
    requires
        graph_wf(g),
        !has_node(g, id),
        has_node(g, x) || x == id,
    ensures
        node(g.push(empty_node(id)), x) == (if x == id { empty_node(id) } else { node(g, x) }),
{
    let g2 = g.push(empty_node(id));
    lemma_add_node_wf(g, id);
    if x == id {
        lemma_index_of(g2, x, g.len() as int);
    } else {
        let k = choose|k: int| 0 <= k < g.len() && g[k].id == x;
        lemma_index_of(g, x, k);
        assert(g2[k].id == x);
        lemma_index_of(g2, x, k);
    }
}

/// Adding a node that exists changes nothing: `add_node` is idempotent.
pub proof fn law_add_node_idempotent(g: Seq<NodeModel>, id: Seq<u32>)
    requires
        graph_wf(g),
    ensures
        spec_add_node(spec_add_node(g, id), id) == spec_add_node(g, id),
{
    lemma_add_node_has(g, id);
}

/// Adding a node keeps the graph well formed, and keeps each of the two
/// invariants that held before: links recorded on both ends, parents
/// recorded among their children.
pub proof fn law_add_node_keeps_invariants(g: Seq<NodeModel>, id: Seq<u32>)
    requires
        graph_wf(g),
    ensures
        graph_wf(spec_add_node(g, id)),
        links_symmetric(g) ==> links_symmetric(spec_add_node(g, id)),
        parent_recorded(g) ==> parent_recorded(spec_add_node(g, id)),
{
    if !has_node(g, id) {
        let g2 = g.push(empty_node(id));
        lemma_add_node_wf(g, id);
        if links_symmetric(g) {
            assert forall|x: Seq<u32>, y: Seq<u32>| has_node(g2, x) && has_node(g2, y) implies
                (#[trigger] node(g2, x).links_to.contains(y) <==> #[trigger] node(g2, y).linked_from.contains(x)) by {
                lemma_node_push(g, id, x);
                lemma_node_push(g, id, y);
                if x != id && y != id {
                    assert(node(g, x).links_to.contains(y) <==> node(g, y).linked_from.contains(x));
                } else if x == id && y != id {
                    lemma_refs_are_nodes(g, y);
                } else if x != id && y == id {
                    lemma_refs_are_nodes(g, x);
                }
            }
        }
        if parent_recorded(g) {
            assert forall|x: Seq<u32>| has_node(g2, x) && (#[trigger] node(g2, x)).parent is Some implies
                node(g2, node(g2, x).parent.unwrap()).children.contains(x) by {
                lemma_node_push(g, id, x);
                if x != id {
                    let p = node(g, x).parent.unwrap();
                    lemma_refs_are_nodes(g, x);
                    lemma_node_push(g, id, p);
                }
            }
        }
    }
}

/// The relations of an existing node name only existing nodes.
proof fn lemma_refs_are_nodes(g: Seq<NodeModel>, x: Seq<u32>)
    requires
        graph_wf(g),
        has_node(g, x),
    ensures
        node_ok(g, node(g, x)),
        forall|y: Seq<u32>| node(g, x).links_to.contains(y) ==> has_node(g, y),
        forall|y: Seq<u32>| node(g, x).linked_from.contains(y) ==> has_node(g, y),
        forall|y: Seq<u32>| node(g, x).children.contains(y) ==> has_node(g, y),
        node(g, x).parent matches Some(p) ==> has_node(g, p),
{
    let k = choose|k: int| 0 <= k < g.len() && g[k].id == x;
    lemma_index_of(g, x, k);
    assert(node_ok(g, g[k]));
    let n = g[k];
    assert forall|y: Seq<u32>| n.links_to.contains(y) implies has_node(g, y) by {
        let j = choose|j: int| 0 <= j < n.links_to.len() && n.links_to[j] == y;
    }
    assert forall|y: Seq<u32>| n.linked_from.contains(y) implies has_node(g, y) by {
        let j = choose|j: int| 0 <= j < n.linked_from.len() && n.linked_from[j] == y;
    }
    assert forall|y: Seq<u32>| n.children.contains(y) implies has_node(g, y) by {
        let j = choose|j: int| 0 <= j < n.children.len() && n.children[j] == y;
    }
}


proof fn lemma_set_insert_contains(s: Seq<Seq<u32>>, x: Seq<u32>)
    ensures
        forall|y: Seq<u32>| #[trigger] set_insert(s, x).contains(y) <==> (s.contains(y) || y == x),
{
    if !s.contains(x) {
        assert forall|y: Seq<u32>| #[trigger] s.push(x).contains(y) <==> (s.contains(y) || y == x) by {
            if s.push(x).contains(y) {
                let k = choose|k: int| 0 <= k < s.push(x).len() && s.push(x)[k] == y;
                if k < s.len() {
                    assert(s[k] == y);
                }
            }
            if s.contains(y) {
                let k = choose|k: int| 0 <= k < s.len() && s[k] == y;
                assert(s.push(x)[k] == y);
            }
            if y == x {
                assert(s.push(x)[s.len() as int] == y);
            }
        }
    }
}

/// After `add_link(from, to)`, `to` is among the links of `from` and `from`
/// among the backlinks of `to`; links recorded on both ends before stay so,
/// and parents recorded among their children before stay so.
#[verifier::rlimit(40)]
#[verifier::spinoff_prover]
pub proof fn law_add_link(g: Seq<NodeModel>, from: Seq<u32>, to: Seq<u32>)
    requires
        graph_wf(g),
    ensures
        graph_wf(spec_add_link(g, from, to)),
        has_node(spec_add_link(g, from, to), from),
        has_node(spec_add_link(g, from, to), to),
        node(spec_add_link(g, from, to), from).links_to.contains(to),
        node(spec_add_link(g, from, to), to).linked_from.contains(from),
        links_symmetric(g) ==> links_symmetric(spec_add_link(g, from, to)),
        parent_recorded(g) ==> parent_recorded(spec_add_link(g, from, to)),
{
    let g0 = spec_add_node(g, from);
    law_add_node_keeps_invariants(g, from);
    lemma_add_node_has(g, from);
    let g1 = spec_add_node(g0, to);
    law_add_node_keeps_invariants(g0, to);
    lemma_add_node_has(g0, to);
    let i = index_of(g1, from).unwrap();
    let ki = choose|k: int| 0 <= k < g1.len() && g1[k].id == from;
    lemma_index_of(g1, from, ki);
    let n2 = NodeModel { links_to: set_insert(g1[i].links_to, to), ..g1[i] };
    let g2 = g1.update(i, n2);
    assert(node_ok(g1, g1[i]));
    lemma_set_insert_distinct(g1[i].links_to, to);
    lemma_set_insert_contains(g1[i].links_to, to);
    assert forall|k: int| 0 <= k < n2.links_to.len() implies has_node(g1, #[trigger] n2.links_to[k]) by {
        let y = n2.links_to[k];
        assert(n2.links_to.contains(y));
        if y != to {
            assert(g1[i].links_to.contains(y));
            let kk = choose|kk: int| 0 <= kk < g1[i].links_to.len() && g1[i].links_to[kk] == y;
        }
    }
    lemma_update_wf(g1, i, n2);
    let j = index_of(g2, to).unwrap();
    let kj = choose|k: int| 0 <= k < g1.len() && g1[k].id == to;
    lemma_index_of(g1, to, kj);
    assert(index_of(g2, to) == index_of(g1, to));
    let n3 = NodeModel { linked_from: set_insert(g2[j].linked_from, from), ..g2[j] };
    let g3 = g2.update(j, n3);
    assert(g2[j].id == to);
    assert(node_ok(g2, g2[j]));
    lemma_set_insert_distinct(g2[j].linked_from, from);
    lemma_set_insert_contains(g2[j].linked_from, from);
    assert forall|k: int| 0 <= k < n3.linked_from.len() implies has_node(g2, #[trigger] n3.linked_from[k]) by {
        let y = n3.linked_from[k];
        assert(n3.linked_from.contains(y));
        if y != from {
            assert(g2[j].linked_from.contains(y));
            let kk = choose|kk: int| 0 <= kk < g2[j].linked_from.len() && g2[j].linked_from[kk] == y;
        }
    }
    lemma_update_wf(g2, j, n3);
    assert(g3 == spec_add_link(g, from, to));
    lemma_node_update(g1, i, n2, from);
    lemma_node_update(g1, i, n2, to);
    lemma_node_update(g2, j, n3, from);
    lemma_node_update(g2, j, n3, to);
    if links_symmetric(g) {
        assert forall|x: Seq<u32>, y: Seq<u32>| has_node(g3, x) && has_node(g3, y) implies
            (#[trigger] node(g3, x).links_to.contains(y) <==> #[trigger] node(g3, y).linked_from.contains(x)) by {
            lemma_node_update(g1, i, n2, x);
            lemma_node_update(g1, i, n2, y);
            lemma_node_update(g2, j, n3, x);
            lemma_node_update(g2, j, n3, y);
            assert(node(g1, x).links_to.contains(y) <==> node(g1, y).linked_from.contains(x));
        }
    }
    if parent_recorded(g) {
        assert forall|x: Seq<u32>| has_node(g3, x) && (#[trigger] node(g3, x)).parent is Some implies
            node(g3, node(g3, x).parent.unwrap()).children.contains(x) by {
            lemma_node_update(g1, i, n2, x);
            lemma_node_update(g2, j, n3, x);
            let p = node(g1, x).parent.unwrap();
            lemma_refs_are_nodes(g1, x);
            lemma_node_update(g1, i, n2, p);
            lemma_node_update(g2, j, n3, p);
        }
    }
}


proof fn lemma_edge_total_push(g: Seq<NodeModel>, n: NodeModel)
    ensures
        spec_edge_total(g.push(n)) == spec_edge_total(g) + n.links_to.len(),
{
    assert(g.push(n).drop_last() =~= g);
}

proof fn lemma_edge_total_update(g: Seq<NodeModel>, i: int, n: NodeModel)
    requires
        0 <= i < g.len(),
    ensures
        spec_edge_total(g.update(i, n)) == spec_edge_total(g) - g[i].links_to.len() + n.links_to.len(),
    decreases g.len(),
{
    if i == g.len() - 1 {
        assert(g.update(i, n).drop_last() =~= g.drop_last());
    } else {
        lemma_edge_total_update(g.drop_last(), i, n);
        assert(g.update(i, n).drop_last() =~= g.drop_last().update(i, n));
    }
}

proof fn lemma_add_node_wf_any(g: Seq<NodeModel>, id: Seq<u32>)
    requires
        graph_wf(g),
    ensures
        graph_wf(spec_add_node(g, id)),
{
    if !has_node(g, id) {
        lemma_add_node_wf(g, id);
    }
}

proof fn lemma_add_node_edges(g: Seq<NodeModel>, id: Seq<u32>)
    requires
        graph_wf(g),
    ensures
        spec_edge_total(spec_add_node(g, id)) == spec_edge_total(g),
        forall|x: Seq<u32>| has_node(g, x) ==> #[trigger] node(spec_add_node(g, id), x) == node(g, x),
        !has_node(g, id) ==> node(spec_add_node(g, id), id) == empty_node(id),
{
    if !has_node(g, id) {
        let g1 = g.push(empty_node(id));
        lemma_edge_total_push(g, empty_node(id));
        lemma_add_node_wf(g, id);
        assert forall|x: Seq<u32>| has_node(g, x) implies #[trigger] node(g1, x) == node(g, x) by {
            let k = choose|k: int| 0 <= k < g.len() && g[k].id == x;
            lemma_index_of(g, x, k);
            lemma_index_of(g1, x, k);
        }
        lemma_index_of(g1, id, g.len() as int);
    }
}

/// `add_link(from, to)` adds one link, unless `from` links to `to` already,
/// in which case the number of links stays.
pub proof fn law_add_link_edge_count(g: Seq<NodeModel>, from: Seq<u32>, to: Seq<u32>)
    requires
        graph_wf(g),
    ensures
        spec_edge_total(spec_add_link(g, from, to)) == spec_edge_total(g)
            + if has_node(g, from) && node(g, from).links_to.contains(to) { 0int } else { 1int },
{
    let g0 = spec_add_node(g, from);
    lemma_add_node_edges(g, from);
    lemma_add_node_has(g, from);
    lemma_add_node_wf_any(g, from);
    let g1 = spec_add_node(g0, to);
    lemma_add_node_edges(g0, to);
    lemma_add_node_has(g0, to);
    lemma_add_node_wf_any(g0, to);
    let i = index_of(g1, from).unwrap();
    let ki = choose|k: int| 0 <= k < g1.len() && g1[k].id == from;
    lemma_index_of(g1, from, ki);
    assert(g1[i] == node(g1, from));
    assert(node(g1, from).links_to == (if has_node(g, from) { node(g, from).links_to } else { Seq::empty() }));
    let n2 = NodeModel { links_to: set_insert(g1[i].links_to, to), ..g1[i] };
    let g2 = g1.update(i, n2);
    lemma_edge_total_update(g1, i, n2);
    let j = index_of(g2, to).unwrap();
    let kj = choose|k: int| 0 <= k < g1.len() && g1[k].id == to;
    lemma_index_of(g1, to, kj);
    assert forall|a: int, b: int| 0 <= a < b < g2.len() implies g2[a].id != g2[b].id by {
        assert(g1[a].id != g1[b].id);
    }
    lemma_index_of(g2, to, kj);
    let n3 = NodeModel { linked_from: set_insert(g2[j].linked_from, from), ..g2[j] };
    lemma_edge_total_update(g2, j, n3);
    assert(g2.update(j, n3) == spec_add_link(g, from, to));
}

/// After `add_node_with_parent(id, Some(p))`, the parent of `id` is `p` and
/// `id` is among the children of `p`; links recorded on both ends before
/// stay so, and parents recorded among their children before stay so; the
/// graph gains a node for each of `id` and `p` that was not one yet.
pub proof fn law_add_with_parent(g: Seq<NodeModel>, id: Seq<u32>, p: Seq<u32>)
    requires
        graph_wf(g),
    ensures
        graph_wf(spec_add_with_parent(g, id, Some(p))),
        has_node(spec_add_with_parent(g, id, Some(p)), id),
        node(spec_add_with_parent(g, id, Some(p)), id).parent == Some(p),
        node(spec_add_with_parent(g, id, Some(p)), p).children.contains(id),
        links_symmetric(g) ==> links_symmetric(spec_add_with_parent(g, id, Some(p))),
        parent_recorded(g) ==> parent_recorded(spec_add_with_parent(g, id, Some(p))),
        parent_of(spec_add_with_parent(g, id, Some(p)), id) == Some(p),
        spec_add_with_parent(g, id, Some(p)).len() == g.len() + (if has_node(g, id) { 0int } else { 1int })
            + (if has_node(g, p) || p == id { 0int } else { 1int }),
{
    let g1 = spec_add_node(g, id);
    law_add_node_keeps_invariants(g, id);
    lemma_add_node_has(g, id);
    let g2 = spec_add_node(g1, p);
    law_add_node_keeps_invariants(g1, p);
    lemma_add_node_has(g1, p);
    let ki = choose|k: int| 0 <= k < g2.len() && g2[k].id == id;
    lemma_index_of(g2, id, ki);
    let i = index_of(g2, id).unwrap();
    let n3 = NodeModel { parent: Some(p), ..g2[i] };
    assert(node_ok(g2, g2[i]));
    lemma_update_wf(g2, i, n3);
    let g3 = g2.update(i, n3);
    let kj = choose|k: int| 0 <= k < g2.len() && g2[k].id == p;
    lemma_index_of(g2, p, kj);
    let j = index_of(g3, p).unwrap();
    assert(g3[j].id == p);
    assert(node_ok(g3, g3[j]));
    let n4 = NodeModel { children: set_insert(g3[j].children, id), ..g3[j] };
    lemma_set_insert_distinct(g3[j].children, id);
    lemma_set_insert_contains(g3[j].children, id);
    assert forall|k: int| 0 <= k < n4.children.len() implies has_node(g3, #[trigger] n4.children[k]) by {
        let y = n4.children[k];
        assert(n4.children.contains(y));
        if y != id {
            assert(g3[j].children.contains(y));
            let kk = choose|kk: int| 0 <= kk < g3[j].children.len() && g3[j].children[kk] == y;
        }
    }
    lemma_update_wf(g3, j, n4);
    let g4 = g3.update(j, n4);
    assert(g4 == spec_add_with_parent(g, id, Some(p)));
    lemma_node_update(g2, i, n3, id);
    lemma_node_update(g2, i, n3, p);
    lemma_node_update(g3, j, n4, id);
    lemma_node_update(g3, j, n4, p);
    if links_symmetric(g) {
        assert forall|x: Seq<u32>, y: Seq<u32>| has_node(g4, x) && has_node(g4, y) implies
            (#[trigger] node(g4, x).links_to.contains(y) <==> #[trigger] node(g4, y).linked_from.contains(x)) by {
            lemma_node_update(g2, i, n3, x);
            lemma_node_update(g2, i, n3, y);
            lemma_node_update(g3, j, n4, x);
            lemma_node_update(g3, j, n4, y);
            assert(node(g2, x).links_to.contains(y) <==> node(g2, y).linked_from.contains(x));
        }
    }
    if parent_recorded(g) {
        assert forall|x: Seq<u32>| has_node(g4, x) && (#[trigger] node(g4, x)).parent is Some implies
            node(g4, node(g4, x).parent.unwrap()).children.contains(x) by {
            lemma_node_update(g2, i, n3, x);
            lemma_node_update(g3, j, n4, x);
            if x != id {
                let q = node(g2, x).parent.unwrap();
                lemma_refs_are_nodes(g2, x);
                lemma_node_update(g2, i, n3, q);
                lemma_node_update(g3, j, n4, q);
                assert(node(g2, q).children.contains(x));
            }
        }
    }
}

/// A new graph has no nodes, so both invariants hold trivially.
pub proof fn law_new_graph_invariants()
    ensures
        graph_wf(Seq::<NodeModel>::empty()),
        links_symmetric(Seq::<NodeModel>::empty()),
        parent_recorded(Seq::<NodeModel>::empty()),
{
}

} // verus!
