//! Data model of the engine: relationship kinds, graph nodes and edges,
//! and the per-document dependency graph with its acyclicity invariant.

use vstd::prelude::*;

verus! {

/// Relationship kind of an edge: a closed enumeration of the kinds the
/// engine distinguishes, plus an `Other` fallback for the open-ended rest.
#[derive(Clone, Copy, Debug, PartialEq, Eq, Structural)]
pub enum Relationship {
    Contains,
    DependsOn,
    Describes,
    GeneratedFrom,
    PackageOf,
    Variant,
    Other,
}

/// One node of a document graph: a component, or the synthetic document
/// root node. Immutable once built.
#[derive(Debug, PartialEq, Eq)]
pub struct GraphNode {
    pub node_id: String,
    pub name: String,
    pub version: String,
    pub purls: Vec<String>,
    pub cpes: Vec<String>,
    pub document_id: String,
}

/// Mathematical value of a `GraphNode`: every string as a sequence of
/// characters.
#[verifier::ext_equal]
pub struct GraphNodeView {
    pub node_id: Seq<char>,
    pub name: Seq<char>,
    pub version: Seq<char>,
    pub purls: Seq<Seq<char>>,
    pub cpes: Seq<Seq<char>>,
    pub document_id: Seq<char>,
}

impl View for GraphNode {
    type V = GraphNodeView;

    open spec fn view(&self) -> GraphNodeView {
        GraphNodeView {
            node_id: self.node_id@,
            name: self.name@,
            version: self.version@,
            purls: self.purls@.map_values(|s: String| s@),
            cpes: self.cpes@.map_values(|s: String| s@),
            document_id: self.document_id@,
        }
    }
}

impl GraphNode {
    /// Deep copy with an exact contract; the derived `Clone` would say
    /// nothing about the result.
    pub fn duplicate(&self) -> (r: GraphNode)
        ensures
            r@ == self@,
    {
        let r = GraphNode {
            node_id: self.node_id.clone(),
            name: self.name.clone(),
            version: self.version.clone(),
            purls: self.purls.clone(),
            cpes: self.cpes.clone(),
            document_id: self.document_id.clone(),
        };
        proof {
            assert(r.purls@.map_values(|s: String| s@) =~= self.purls@.map_values(
                |s: String| s@,
            ));
            assert(r.cpes@.map_values(|s: String| s@) =~= self.cpes@.map_values(|s: String| s@));
            assert(r@ =~= self@);
        }
        r
    }
}

/// One directed edge. The edge points from the dependent node (`from`)
/// to the node it depends on (`to`); ancestor traversal walks edges
/// backward, descendant traversal walks them forward.
#[derive(Clone, Copy, Debug, PartialEq, Eq, Structural)]
pub struct GraphEdge {
    pub from: usize,
    pub to: usize,
    pub kind: Relationship,
}

/// Mathematical value of a document graph. The topological witness held
/// by the executable type is not part of the value: two builds of the
/// same document denote the same view.
#[verifier::ext_equal]
pub struct DocumentGraphView {
    pub document_id: Seq<char>,
    pub nodes: Seq<GraphNodeView>,
    pub edges: Seq<GraphEdge>,
}

/// In-memory directed graph of one ingested document. Node 0 is the
/// synthetic root node standing for the document itself. The `rank`
/// field is a topological witness: it exists exactly when the document
/// is acyclic, and it never leaves the type.
#[derive(Debug)]
pub struct DocumentGraph {
    document_id: String,
    nodes: Vec<GraphNode>,
    edges: Vec<GraphEdge>,
    rank: Vec<usize>,
}

impl View for DocumentGraph {
    type V = DocumentGraphView;

    closed spec fn view(&self) -> DocumentGraphView {
        DocumentGraphView {
            document_id: self.document_id@,
            nodes: self.nodes@.map_values(|n: GraphNode| n@),
            edges: self.edges@,
        }
    }
}

/// A ranking over `n` nodes assigns every node a number that strictly
/// increases along every edge; one exists exactly for acyclic graphs.
pub open spec fn ranking_for(r: Seq<int>, n: int, edges: Seq<GraphEdge>) -> bool {
    &&& r.len() == n
    &&& forall|i: int|
        0 <= i < edges.len() ==> r[edges[i].from as int] < r[edges[i].to as int]
}

pub open spec fn is_ranking(r: Seq<int>, g: DocumentGraphView) -> bool {
    ranking_for(r, g.nodes.len() as int, g.edges)
}

/// Acyclicity, witnessed by a ranking.
pub open spec fn acyclic(g: DocumentGraphView) -> bool {
    exists|r: Seq<int>| is_ranking(r, g)
}

/// Well-formedness of a graph value: edge endpoints in range, node
/// identifiers unique, every node owned by the graph's document, a root
/// node present, and no cycles.
pub open spec fn graph_inv(g: DocumentGraphView) -> bool {
    &&& g.nodes.len() >= 1
    &&& forall|i: int|
        0 <= i < g.edges.len() ==> g.edges[i].from < g.nodes.len() && g.edges[i].to
            < g.nodes.len()
    &&& forall|i: int, j: int|
        0 <= i < g.nodes.len() && 0 <= j < g.nodes.len() && i != j ==> g.nodes[i].node_id
            != g.nodes[j].node_id
    &&& forall|i: int| 0 <= i < g.nodes.len() ==> g.nodes[i].document_id == g.document_id
    &&& acyclic(g)
}

impl DocumentGraph {
    /// Executable well-formedness: the graph value satisfies its
    /// invariant and the stored rank is a ranking witness for it.
    pub closed spec fn wf(&self) -> bool {
        &&& graph_inv(self@)
        &&& self.rank@.len() == self.nodes@.len()
        &&& forall|i: int| 0 <= i < self.rank@.len() ==> self.rank@[i] < self.nodes@.len()
        &&& forall|i: int|
            0 <= i < self.edges@.len() ==> self.rank@[self.edges@[i].from as int]
                < self.rank@[self.edges@[i].to as int]
    }

    pub proof fn lemma_wf_inv(&self)
        requires
            self.wf(),
        ensures
            graph_inv(self@),
    {
    }

    /// Assembles a graph from parts. The ranking witness is checked
    /// here once; every later traversal leans on it for termination.
    pub fn assemble(document_id: String, nodes: Vec<GraphNode>, edges: Vec<GraphEdge>, rank: Vec<usize>) -> (r: DocumentGraph)
        requires
            nodes@.len() >= 1,
            rank@.len() == nodes@.len(),
            forall|i: int| 0 <= i < rank@.len() ==> rank@[i] < nodes@.len(),
            forall|i: int|
                0 <= i < edges@.len() ==> edges@[i].from < nodes@.len() && edges@[i].to
                    < nodes@.len(),
            forall|i: int|
                0 <= i < edges@.len() ==> rank@[edges@[i].from as int] < rank@[edges@[i].to as int],
            forall|i: int, j: int|
                0 <= i < nodes@.len() && 0 <= j < nodes@.len() && i != j ==> nodes@[i]@.node_id
                    != nodes@[j]@.node_id,
            forall|i: int| 0 <= i < nodes@.len() ==> nodes@[i]@.document_id == document_id@,
        ensures
            r.wf(),
            r@.document_id == document_id@,
            r@.nodes == nodes@.map_values(|n: GraphNode| n@),
            r@.edges == edges@,
    {
        let g = DocumentGraph { document_id, nodes, edges, rank };
        proof {
            let rv = Seq::new(g.rank@.len() as nat, |i: int| g.rank@[i] as int);
            assert(is_ranking(rv, g@));
            assert(forall|i: int|
                0 <= i < g@.nodes.len() ==> g@.nodes[i] == g.nodes@.map_values(
                    |n: GraphNode| n@,
                )[i]);
        }
        g
    }

    pub fn node_count(&self) -> (r: usize)
        ensures
            r == self@.nodes.len(),
    {
        self.nodes.len()
    }

    pub fn edge_count(&self) -> (r: usize)
        ensures
            r == self@.edges.len(),
    {
        self.edges.len()
    }

    pub fn document_id(&self) -> (r: &String)
        ensures
            r@ == self@.document_id,
    {
        &self.document_id
    }

    pub fn node_at(&self, i: usize) -> (r: &GraphNode)
        requires
            i < self@.nodes.len(),
        ensures
            r@ == self@.nodes[i as int],
    {
        &self.nodes[i]
    }

    pub fn edge_at(&self, i: usize) -> (r: GraphEdge)
        requires
            i < self@.edges.len(),
        ensures
            r == self@.edges[i as int],
    {
        self.edges[i]
    }

    /// Rank of a node, used only to bound traversal recursion.
    pub fn rank_at(&self, i: usize) -> (r: usize)
        requires
            self.wf(),
            i < self@.nodes.len(),
        ensures
            r == self.spec_rank(i as int),
    {
        self.rank[i]
    }

    /// The stored rank stays below the node count.
    pub proof fn lemma_rank_bounds(&self, i: int)
        requires
            self.wf(),
            0 <= i < self@.nodes.len(),
        ensures
            0 <= self.spec_rank(i) < self@.nodes.len(),
    {
    }

    /// The stored topological witness, exposed to specifications only
    /// as an uninterpreted bound for recursion measures.
    pub closed spec fn spec_rank(&self, i: int) -> int {
        self.rank@[i] as int
    }

    /// Along every edge the stored rank strictly increases.
    pub proof fn lemma_rank_increases(&self, e: int)
        requires
            self.wf(),
            0 <= e < self@.edges.len(),
        ensures
            self.spec_rank(self@.edges[e].from as int) < self.spec_rank(self@.edges[e].to as int),
    {
    }

    /// Deep copy with an exact contract.
    pub fn duplicate(&self) -> (r: DocumentGraph)
        ensures
            r@ == self@,
            self.wf() ==> r.wf(),
    {
        let mut nodes: Vec<GraphNode> = Vec::new();
        let mut i: usize = 0;
        while i < self.nodes.len()
            invariant
                i <= self.nodes@.len(),
                nodes@.len() == i as int,
                forall|k: int| 0 <= k < i as int ==> nodes@[k]@ == self.nodes@[k]@,
            decreases self.nodes@.len() - i as int,
        {
            nodes.push(self.nodes[i].duplicate());
            i += 1;
        }
        let r = DocumentGraph {
            document_id: self.document_id.clone(),
            nodes,
            edges: self.edges.clone(),
            rank: self.rank.clone(),
        };
        proof {
            assert(r@.nodes =~= self@.nodes);
            assert(r@ =~= self@);
        }
        r
    }

    /// Documented size estimator: a fixed record cost per node and per
    /// edge, plus a fixed base cost, saturating at the largest `u64`.
    pub fn estimate_bytes(&self) -> (r: u64)
        ensures
            r == spec_estimate(self@),
    {
        let raw: u128 = 64u128 + 192u128 * (self.nodes.len() as u128) + 48u128 * (self.edges.len()
            as u128);
        if raw > u64::MAX as u128 {
            u64::MAX
        } else {
            raw as u64
        }
    }
}

/// Estimated in-memory footprint of a graph: 64 bytes of base cost,
/// 192 per node record and 48 per edge record, saturating at `u64::MAX`.
/// The estimate depends only on the graph value, never on the witness.
pub open spec fn spec_estimate(g: DocumentGraphView) -> u64 {
    let raw = 64 + 192 * g.nodes.len() + 48 * g.edges.len();
    if raw > u64::MAX {
        u64::MAX
    } else {
        raw as u64
    }
}

/// Some edge leads from `u` to `v`.
pub open spec fn edge_connects(edges: Seq<GraphEdge>, u: int, v: int) -> bool {
    exists|e: int| 0 <= e < edges.len() && edges[e].from == u && edges[e].to == v
}

/// A cycle among the edges: a path of at least one hop that returns
/// to its start.
pub open spec fn is_cycle(edges: Seq<GraphEdge>, path: Seq<int>) -> bool {
    &&& path.len() >= 2
    &&& path[0] == path[path.len() - 1]
    &&& forall|i: int|
        0 <= i < path.len() - 1 ==> edge_connects(edges, #[trigger] path[i], path[i + 1])
}

proof fn lemma_rank_along_path(rv: Seq<int>, edges: Seq<GraphEdge>, path: Seq<int>, k: int)
    requires
        forall|i: int|
            0 <= i < edges.len() ==> rv[(#[trigger] edges[i]).from as int] < rv[edges[i].to
                as int],
        1 <= k < path.len(),
        forall|i: int|
            0 <= i < path.len() - 1 ==> edge_connects(edges, #[trigger] path[i], path[i + 1]),
    ensures
        rv[path[0]] < rv[path[k]],
    decreases k,
{
    if k > 1 {
        lemma_rank_along_path(rv, edges, path, k - 1);
    }
    assert(edge_connects(edges, path[k - 1], path[k]));
    let e = choose|e: int|
        0 <= e < edges.len() && edges[e].from == path[k - 1] && edges[e].to == path[k];
    assert(rv[path[k - 1]] < rv[path[k]]);
}

/// A graph whose edges form a cycle admits no ranking: cyclic
/// documents can never satisfy the graph invariant.
pub proof fn lemma_cycle_not_acyclic(g: DocumentGraphView, path: Seq<int>)
    requires
        is_cycle(g.edges, path),
    ensures
        !acyclic(g),
{
    if acyclic(g) {
        let rv = choose|rv: Seq<int>| is_ranking(rv, g);
        lemma_rank_along_path(rv, g.edges, path, path.len() - 1);
        assert(rv[path[0]] < rv[path[path.len() - 1]]);
        assert(false);
    }
}

} // verus!
