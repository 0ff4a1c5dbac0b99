//! Graph builder: turns one document's rows into a `DocumentGraph`, or
//! rejects the document when its relationship rows form a cycle.
//!
//! The check is a topological placement: a node may be placed once all
//! its dependents are placed, and the placement order is kept as the
//! graph's ranking witness. When placement gets stuck the remaining
//! nodes all have an unplaced dependent, which refutes every possible
//! ranking — the document is cyclic and rejected.

use vstd::prelude::*;
use crate::model::{
    acyclic, graph_inv, is_ranking, ranking_for, DocumentGraph, DocumentGraphView, GraphEdge, GraphNode,
    GraphNodeView,
};
use crate::store::{doc_wf, ComponentRowView, RelationshipRowView, StoredDocument, StoredDocumentView};

verus! {

/// Rejection signal of the builder: the document's relationship rows
/// form a cycle. Not an error — the document is simply never cached.
#[derive(Debug, Clone, Copy, PartialEq, Eq, Structural)]
pub struct CyclicDocument;

/// The synthetic root node standing for the document itself.
pub open spec fn spec_root_node(d: StoredDocumentView) -> GraphNodeView {
    GraphNodeView {
        node_id: d.root_id,
        name: d.root_name,
        version: Seq::empty(),
        purls: Seq::empty(),
        cpes: Seq::empty(),
        document_id: d.document_id,
    }
}

/// The node a component row becomes.
pub open spec fn spec_component_node(d: StoredDocumentView, c: ComponentRowView) -> GraphNodeView {
    GraphNodeView {
        node_id: c.node_id,
        name: c.name,
        version: c.version,
        purls: c.purls,
        cpes: c.cpes,
        document_id: d.document_id,
    }
}

/// All nodes of the built graph: the root node first, then one node
/// per component row, in row order.
pub open spec fn spec_nodes(d: StoredDocumentView) -> Seq<GraphNodeView> {
    seq![spec_root_node(d)] + d.components.map_values(|c: ComponentRowView| spec_component_node(d, c))
}

pub open spec fn has_node(ns: Seq<GraphNodeView>, id: Seq<char>) -> bool {
    exists|i: int| 0 <= i < ns.len() && ns[i].node_id == id
}

/// Index of the node with the given identifier; meaningful only when
/// `has_node` holds and identifiers are unique.
pub open spec fn node_index(ns: Seq<GraphNodeView>, id: Seq<char>) -> int {
    choose|i: int| 0 <= i < ns.len() && ns[i].node_id == id
}

/// A relationship row is resolvable when both endpoints name nodes of
/// the document; unresolvable rows contribute no edge.
pub open spec fn row_resolvable(ns: Seq<GraphNodeView>, r: RelationshipRowView) -> bool {
    has_node(ns, r.source_id) && has_node(ns, r.target_id)
}

pub open spec fn spec_edge_of_row(ns: Seq<GraphNodeView>, r: RelationshipRowView) -> GraphEdge {
    GraphEdge {
        from: node_index(ns, r.source_id) as usize,
        to: node_index(ns, r.target_id) as usize,
        kind: r.kind,
    }
}

/// Edges contributed by the first `k` relationship rows.
pub open spec fn spec_edges_upto(d: StoredDocumentView, k: int) -> Seq<GraphEdge>
    decreases k,
{
    if k <= 0 {
        Seq::empty()
    } else {
        let prev = spec_edges_upto(d, k - 1);
        let r = d.relationships[k - 1];
        if row_resolvable(spec_nodes(d), r) {
            prev.push(spec_edge_of_row(spec_nodes(d), r))
        } else {
            prev
        }
    }
}

/// All edges of the built graph, in row order.
pub open spec fn spec_edges(d: StoredDocumentView) -> Seq<GraphEdge> {
    spec_edges_upto(d, d.relationships.len() as int)
}

/// The graph value a well-formed document builds to. Building is a
/// pure function of the rows: the same document always denotes the
/// same graph value.
pub open spec fn spec_graph(d: StoredDocumentView) -> DocumentGraphView {
    DocumentGraphView { document_id: d.document_id, nodes: spec_nodes(d), edges: spec_edges(d) }
}

/// Number of `true` entries of a placement state.
pub open spec fn num_true(s: Seq<bool>) -> int
    decreases s.len(),
{
    if s.len() == 0 {
        0
    } else {
        num_true(s.drop_last()) + if s.last() {
            1int
        } else {
            0int
        }
    }
}

pub proof fn lemma_num_true_bound(s: Seq<bool>)
    ensures
        0 <= num_true(s) <= s.len(),
    decreases s.len(),
{
    if s.len() > 0 {
        lemma_num_true_bound(s.drop_last());
    }
}

pub proof fn lemma_num_true_update(s: Seq<bool>, i: int)
    requires
        0 <= i < s.len(),
        !s[i],
    ensures
        num_true(s.update(i, true)) == num_true(s) + 1,
    decreases s.len(),
{
    let t = s.update(i, true);
    if i == s.len() - 1 {
        assert(t.drop_last() =~= s.drop_last());
    } else {
        assert(t.drop_last() =~= s.drop_last().update(i, true));
        lemma_num_true_update(s.drop_last(), i);
    }
}

pub proof fn lemma_num_true_full(s: Seq<bool>)
    requires
        num_true(s) == s.len(),
    ensures
        forall|i: int| 0 <= i < s.len() ==> s[i],
    decreases s.len(),
{
    if s.len() > 0 {
        lemma_num_true_bound(s.drop_last());
        lemma_num_true_full(s.drop_last());
        assert(forall|i: int|
            0 <= i < s.len() - 1 ==> s[i] == s.drop_last()[i]);
    }
}

pub proof fn lemma_num_true_partial(s: Seq<bool>)
    requires
        num_true(s) < s.len(),
    ensures
        exists|i: int| 0 <= i < s.len() && !s[i],
    decreases s.len(),
{
    if s.len() > 0 {
        if s.last() {
            lemma_num_true_partial(s.drop_last());
            let i = choose|i: int| 0 <= i < s.len() - 1 && !s.drop_last()[i];
            assert(!s[i]);
        } else {
            assert(!s[s.len() - 1]);
        }
    }
}

/// Minimum-rank unplaced index among the first `k`.
proof fn min_unplaced_upto(placed: Seq<bool>, rv: Seq<int>, k: int) -> (m: int)
    requires
        rv.len() == placed.len(),
        0 < k <= placed.len(),
        exists|i: int| 0 <= i < k && !placed[i],
    ensures
        0 <= m < k,
        !placed[m],
        forall|i: int| 0 <= i < k && !placed[i] ==> rv[m] <= rv[i],
    decreases k,
{
    if k == 1 {
        0
    } else if !placed[k - 1] {
        if exists|i: int| 0 <= i < k - 1 && !placed[i] {
            let m0 = min_unplaced_upto(placed, rv, k - 1);
            if rv[m0] <= rv[k - 1] {
                m0
            } else {
                k - 1
            }
        } else {
            k - 1
        }
    } else {
        min_unplaced_upto(placed, rv, k - 1)
    }
}

/// When every unplaced node keeps an unplaced dependent, no ranking of
/// the graph can exist: the minimum-rank unplaced node would need a
/// strictly smaller unplaced one.
proof fn lemma_stuck_refutes_ranking(placed: Seq<bool>, edges: Seq<GraphEdge>, rv: Seq<int>)
    requires
        rv.len() == placed.len(),
        exists|i: int| 0 <= i < placed.len() && !placed[i],
        forall|v: int|
            0 <= v < placed.len() && !placed[v] ==> exists|e: int|
                0 <= e < edges.len() && edges[e].to == v && !placed[edges[e].from as int],
        forall|e: int|
            0 <= e < edges.len() ==> edges[e].from < placed.len() && edges[e].to < placed.len(),
    ensures
        !ranking_for(rv, placed.len() as int, edges),
{
    if ranking_for(rv, placed.len() as int, edges) {
        let m = min_unplaced_upto(placed, rv, placed.len() as int);
        let e = choose|e: int|
            0 <= e < edges.len() && edges[e].to == m && !placed[edges[e].from as int];
        assert(rv[edges[e].from as int] < rv[m]);
        assert(rv[m] <= rv[edges[e].from as int]);
    }
}

/// Index of the node carrying the given identifier, by linear search.
fn find_node(nodes: &Vec<GraphNode>, id: &String) -> (r: Option<usize>)
    ensures
        match r {
            Some(i) => i < nodes@.len() && nodes@[i as int]@.node_id == id@,
            None => forall|i: int| 0 <= i < nodes@.len() ==> nodes@[i]@.node_id != id@,
        },
{
    let mut i: usize = 0;
    while i < nodes.len()
        invariant
            i <= nodes@.len(),
            forall|k: int| 0 <= k < i as int ==> nodes@[k]@.node_id != id@,
        decreases nodes@.len() - i as int,
    {
        if nodes[i].node_id == *id {
            return Some(i);
        }
        i += 1;
    }
    None
}

/// Topological placement. `Some(rank)` is a ranking witness; `None`
/// refutes every ranking of `(n, edges)`.
fn toposort(n: usize, edges: &Vec<GraphEdge>) -> (r: Option<Vec<usize>>)
    requires
        forall|e: int| 0 <= e < edges@.len() ==> edges@[e].from < n && edges@[e].to < n,
    ensures
        match r {
            Some(rank) => rank@.len() == n && (forall|i: int|
                0 <= i < n ==> rank@[i] < n) && (forall|e: int|
                0 <= e < edges@.len() ==> rank@[edges@[e].from as int] < rank@[edges@[e].to
                    as int]),
            None => forall|rv: Seq<int>| !ranking_for(rv, n as int, edges@),
        },
{
    let mut placed: Vec<bool> = Vec::new();
    let mut rank: Vec<usize> = Vec::new();
    while placed.len() < n
        invariant
            placed@.len() == rank@.len(),
            placed@.len() <= n,
            forall|i: int| 0 <= i < placed@.len() ==> !placed@[i],
        decreases n - placed@.len(),
    {
        placed.push(false);
        rank.push(0);
    }
    proof {
        lemma_num_true_none(placed@);
    }
    let mut count: usize = 0;
    let mut stuck = false;
    while count < n && !stuck
        invariant
            placed@.len() == n,
            rank@.len() == n,
            count == num_true(placed@),
            count <= n,
            forall|e: int|
                0 <= e < edges@.len() ==> edges@[e].from < n && edges@[e].to < n,
            forall|e: int|
                0 <= e < edges@.len() && placed@[edges@[e].to as int] ==> placed@[edges@[e].from
                    as int],
            forall|e: int|
                0 <= e < edges@.len() && placed@[edges@[e].to as int] ==> rank@[edges@[e].from
                    as int] < rank@[edges@[e].to as int],
            forall|i: int| 0 <= i < n && placed@[i] ==> rank@[i] < count,
            stuck ==> count < n && (forall|v: int|
                0 <= v < n && !placed@[v] ==> exists|e: int|
                    0 <= e < edges@.len() && edges@[e].to == v && !placed@[edges@[e].from as int]),
        decreases 2 * (n - count) + (if stuck { 0int } else { 1int }),
    {
        let ghost placed0 = placed@;
        let ghost count0 = count as int;
        let mut progressed = false;
        let mut u: usize = 0;
        while u < n
            invariant
                placed@.len() == n,
                rank@.len() == n,
                count == num_true(placed@),
                count <= n,
                u <= n,
                forall|e: int|
                    0 <= e < edges@.len() ==> edges@[e].from < n && edges@[e].to < n,
                forall|e: int|
                    0 <= e < edges@.len() && placed@[edges@[e].to as int] ==> placed@[edges@[e].from
                        as int],
                forall|e: int|
                    0 <= e < edges@.len() && placed@[edges@[e].to as int] ==> rank@[edges@[e].from
                        as int] < rank@[edges@[e].to as int],
                forall|i: int| 0 <= i < n && placed@[i] ==> rank@[i] < count,
                !progressed ==> placed@ == placed0 && count as int == count0,
                progressed ==> count as int > count0,
                !progressed ==> forall|v: int|
                    0 <= v < u as int && !placed@[v] ==> exists|e: int|
                        0 <= e < edges@.len() && edges@[e].to == v && !placed@[edges@[e].from
                            as int],
            decreases n - u as int,
        {
            if !placed[u] {
                let mut ok = true;
                let mut k: usize = 0;
                while k < edges.len()
                    invariant
                        placed@.len() == n,
                        u < n,
                        k <= edges@.len(),
                        forall|e: int|
                            0 <= e < edges@.len() ==> edges@[e].from < n && edges@[e].to < n,
                        ok ==> forall|e: int|
                            0 <= e < k as int && edges@[e].to == u as int ==> placed@[edges@[e].from
                                as int],
                        !ok ==> exists|e: int|
                            0 <= e < edges@.len() && edges@[e].to == u as int
                                && !placed@[edges@[e].from as int],
                    decreases edges@.len() - k as int,
                {
                    if edges[k].to == u && !placed[edges[k].from] {
                        ok = false;
                    }
                    k += 1;
                }
                if ok {
                    proof {
                        lemma_num_true_update(placed@, u as int);
                        lemma_num_true_bound(placed@.update(u as int, true));
                    }
                    rank[u] = count;
                    placed[u] = true;
                    count += 1;
                    progressed = true;
                }
            }
            u += 1;
        }
        if !progressed {
            stuck = true;
        }
    }
    if count == n {
        proof {
            lemma_num_true_full(placed@);
            assert forall|i: int| 0 <= i < n as int implies rank@[i] < n as int by {
                assert(placed@[i]);
            }
        }
        Some(rank)
    } else {
        proof {
            lemma_num_true_partial(placed@);
            assert forall|rv: Seq<int>| !ranking_for(rv, n as int, edges@) by {
                if ranking_for(rv, n as int, edges@) {
                    lemma_stuck_refutes_ranking(placed@, edges@, rv);
                }
            }
        }
        None
    }
}

proof fn lemma_num_true_none(s: Seq<bool>)
    requires
        forall|i: int| 0 <= i < s.len() ==> !s[i],
    ensures
        num_true(s) == 0,
    decreases s.len(),
{
    if s.len() > 0 {
        lemma_num_true_none(s.drop_last());
    }
}

/// Builds the graph of one well-formed document, or rejects it exactly
/// when its relationship rows form a cycle. Building is pure: it reads
/// the rows and writes nothing anywhere; caching is the caller's step.
pub fn build_graph(doc: &StoredDocument) -> (r: Result<DocumentGraph, CyclicDocument>)
    requires
        doc_wf(doc@),
    ensures
        r is Ok ==> r->Ok_0.wf() && r->Ok_0@ == spec_graph(doc@),
        r is Err <==> !acyclic(spec_graph(doc@)),
{
    let ghost ns = spec_nodes(doc@);
    let mut nodes: Vec<GraphNode> = Vec::new();
    nodes.push(
        GraphNode {
            node_id: doc.root_id.clone(),
            name: doc.root_name.clone(),
            version: String::new(),
            purls: Vec::new(),
            cpes: Vec::new(),
            document_id: doc.document_id.clone(),
        },
    );
    proof {
        assert(nodes@[0]@ =~~= spec_root_node(doc@));
    }
    let mut i: usize = 0;
    while i < doc.components.len()
        invariant
            i <= doc.components@.len(),
            nodes@.len() == 1 + i as int,
            nodes@[0]@ == spec_root_node(doc@),
            forall|k: int|
                0 <= k < i as int ==> nodes@[k + 1]@ == spec_component_node(
                    doc@,
                    doc@.components[k],
                ),
        decreases doc.components@.len() - i as int,
    {
        let c = &doc.components[i];
        nodes.push(
            GraphNode {
                node_id: c.node_id.clone(),
                name: c.name.clone(),
                version: c.version.clone(),
                purls: c.purls.clone(),
                cpes: c.cpes.clone(),
                document_id: doc.document_id.clone(),
            },
        );
        proof {
            assert(doc@.components[i as int] == doc.components@[i as int]@);
            assert(nodes@[i as int + 1]@ =~~= spec_component_node(doc@, doc@.components[i as int]));
        }
        i += 1;
    }
    proof {
        assert forall|k: int| 0 <= k < ns.len() implies nodes@.map_values(|n: GraphNode| n@)[k]
            == ns[k] by {
            if k > 0 {
                assert(ns[k] == doc@.components.map_values(
                    |c: ComponentRowView| spec_component_node(doc@, c),
                )[k - 1]);
            }
        }
        assert(nodes@.map_values(|n: GraphNode| n@) =~= ns);
        assert forall|p: int, q: int|
            0 <= p < ns.len() && 0 <= q < ns.len() && p != q implies ns[p].node_id
            != ns[q].node_id by {
            if p == 0 || q == 0 {
            } else {
                assert(ns[p].node_id == doc@.components[p - 1].node_id);
                assert(ns[q].node_id == doc@.components[q - 1].node_id);
            }
        }
    }
    let mut edges: Vec<GraphEdge> = Vec::new();
    let mut j: usize = 0;
    while j < doc.relationships.len()
        invariant
            doc_wf(doc@),
            j <= doc.relationships@.len(),
            nodes@.map_values(|n: GraphNode| n@) == ns,
            ns == spec_nodes(doc@),
            nodes@.len() == ns.len(),
            forall|p: int, q: int|
                0 <= p < ns.len() && 0 <= q < ns.len() && p != q ==> ns[p].node_id
                    != ns[q].node_id,
            edges@ == spec_edges_upto(doc@, j as int),
            forall|e: int|
                0 <= e < edges@.len() ==> edges@[e].from < nodes@.len() && edges@[e].to
                    < nodes@.len(),
        decreases doc.relationships@.len() - j as int,
    {
        let rel = &doc.relationships[j];
        proof {
            assert(doc@.relationships[j as int] == doc.relationships@[j as int]@);
        }
        let sf = find_node(&nodes, &rel.source_id);
        let tf = find_node(&nodes, &rel.target_id);
        match (sf, tf) {
            (Some(s), Some(t)) => {
                proof {
                    let rv = doc@.relationships[j as int];
                    assert(ns[s as int].node_id == rv.source_id);
                    assert(ns[t as int].node_id == rv.target_id);
                    assert(has_node(ns, rv.source_id));
                    assert(has_node(ns, rv.target_id));
                    let si = node_index(ns, rv.source_id);
                    let ti = node_index(ns, rv.target_id);
                    assert(0 <= si < ns.len() && ns[si].node_id == rv.source_id);
                    assert(0 <= ti < ns.len() && ns[ti].node_id == rv.target_id);
                    assert(si == s as int);
                    assert(ti == t as int);
                }
                edges.push(GraphEdge { from: s, to: t, kind: rel.kind });
                proof {
                    assert(edges@ =~= spec_edges_upto(doc@, j as int + 1));
                }
            },
            (Some(_), None) => {
                proof {
                    let rv = doc@.relationships[j as int];
                    assert(!has_node(ns, rv.target_id));
                    assert(edges@ =~= spec_edges_upto(doc@, j as int + 1));
                }
            },
            (None, _) => {
                proof {
                    let rv = doc@.relationships[j as int];
                    assert(!has_node(ns, rv.source_id));
                    assert(edges@ =~= spec_edges_upto(doc@, j as int + 1));
                }
            },
        }
        j += 1;
    }
    proof {
        assert(edges@ == spec_edges(doc@));
    }
    match toposort(nodes.len(), &edges) {
        Some(rank) => {
            proof {
                assert forall|k: int| 0 <= k < ns.len() implies nodes@[k]@.document_id
                    == doc@.document_id by {
                    assert(nodes@[k]@ == ns[k]);
                    if k > 0 {
                        assert(ns[k] == spec_component_node(doc@, doc@.components[k - 1]));
                    }
                }
                assert forall|p: int, q: int|
                    0 <= p < nodes@.len() && 0 <= q < nodes@.len() && p != q implies nodes@[
                    p]@.node_id != nodes@[q]@.node_id by {
                    assert(nodes@[p]@ == ns[p]);
                    assert(nodes@[q]@ == ns[q]);
                }
            }
            let g = DocumentGraph::assemble(doc.document_id.clone(), nodes, edges, rank);
            proof {
                assert(g@ =~~= spec_graph(doc@));
                g.lemma_wf_inv();
            }
            Ok(g)
        },
        None => {
            proof {
                assert forall|rv: Seq<int>| !is_ranking(rv, spec_graph(doc@)) by {
                    assert(!ranking_for(rv, nodes@.len() as int, edges@));
                }
            }
            Err(CyclicDocument)
        },
    }
}

/// Re-derivation is idempotent: two builds of the same unchanged
/// document denote graphs with identical node sets, identical edge
/// sets, and identical estimated byte size.
pub proof fn lemma_build_idempotent(
    d: StoredDocumentView,
    g1: DocumentGraphView,
    g2: DocumentGraphView,
)
    requires
        g1 == spec_graph(d),
        g2 == spec_graph(d),
    ensures
        g1.nodes == g2.nodes,
        g1.edges == g2.edges,
        crate::model::spec_estimate(g1) == crate::model::spec_estimate(g2),
{
}

} // verus!
