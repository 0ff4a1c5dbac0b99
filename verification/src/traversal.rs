//! Traversal engine: walks a node's ancestor or descendant edges,
//! optionally filtered by relationship kind, and produces the complete
//! ordered traces from the node to its terminal nodes (roots for
//! ancestor walks, leaves for descendant walks), nearest first.
//!
//! Termination leans on the graph's topological witness: every step of
//! an ancestor walk strictly lowers the rank, every step of a
//! descendant walk strictly raises it.

use vstd::prelude::*;
use crate::model::{graph_inv, DocumentGraph, DocumentGraphView, GraphEdge, Relationship};

verus! {

/// Walk direction. Ancestors are the nodes that depend on the start
/// node; descendants are the nodes it depends on.
#[derive(Clone, Copy, Debug, PartialEq, Eq, Structural)]
pub enum Direction {
    Ancestors,
    Descendants,
}

/// Options of one query: the walk direction and the relationship-kind
/// filter. An empty filter means all kinds.
#[derive(Debug)]
pub struct QueryOptions {
    pub direction: Direction,
    pub relationships: Vec<Relationship>,
}

#[verifier::ext_equal]
pub struct QueryOptionsView {
    pub direction: Direction,
    pub relationships: Seq<Relationship>,
}

impl View for QueryOptions {
    type V = QueryOptionsView;

    open spec fn view(&self) -> QueryOptionsView {
        QueryOptionsView { direction: self.direction, relationships: self.relationships@ }
    }
}

impl QueryOptions {
    /// Unfiltered ancestor query.
    pub fn ancestors() -> (r: QueryOptions)
        ensures
            r@.direction == Direction::Ancestors,
            r@.relationships.len() == 0,
    {
        QueryOptions { direction: Direction::Ancestors, relationships: Vec::new() }
    }

    /// Unfiltered descendant query.
    pub fn descendants() -> (r: QueryOptions)
        ensures
            r@.direction == Direction::Descendants,
            r@.relationships.len() == 0,
    {
        QueryOptions { direction: Direction::Descendants, relationships: Vec::new() }
    }
}

/// An edge kind passes the filter when the filter is empty or lists it.
pub open spec fn kind_allowed(opts: QueryOptionsView, k: Relationship) -> bool {
    opts.relationships.len() == 0 || opts.relationships.contains(k)
}

/// One qualifying hop of the walk along a concrete edge: from node `v`
/// the walk moves to node `u`.
pub open spec fn edge_steps(e: GraphEdge, opts: QueryOptionsView, v: int, u: int) -> bool {
    &&& kind_allowed(opts, e.kind)
    &&& match opts.direction {
        Direction::Ancestors => e.to == v && e.from == u,
        Direction::Descendants => e.from == v && e.to == u,
    }
}

/// Some edge of the graph lets the walk step from `v` to `u`.
pub open spec fn step(g: DocumentGraphView, opts: QueryOptionsView, v: int, u: int) -> bool {
    exists|e: int| 0 <= e < g.edges.len() && edge_steps(#[trigger] g.edges[e], opts, v, u)
}

pub open spec fn has_step(g: DocumentGraphView, opts: QueryOptionsView, v: int) -> bool {
    exists|u: int| step(g, opts, v, u)
}

/// The node the walk stands on before taking hop `i` of trace `p`.
pub open spec fn walk_prev(m: int, p: Seq<usize>, i: int) -> int {
    if i == 0 {
        m
    } else {
        p[i - 1] as int
    }
}

/// `p` lists, nearest first, nodes reachable from `m` by qualifying
/// hops.
pub open spec fn is_walk(g: DocumentGraphView, opts: QueryOptionsView, m: int, p: Seq<usize>) -> bool {
    forall|i: int| 0 <= i < p.len() ==> step(g, opts, walk_prev(m, p, i), #[trigger] p[i] as int)
}

/// The terminal node of a trace (the start node itself when the trace
/// is empty).
pub open spec fn trace_end(m: int, p: Seq<usize>) -> int {
    walk_prev(m, p, p.len() as int)
}

/// A maximal trace: a walk whose terminal node permits no further
/// qualifying hop.
pub open spec fn is_max_trace(
    g: DocumentGraphView,
    opts: QueryOptionsView,
    m: int,
    p: Seq<usize>,
) -> bool {
    is_walk(g, opts, m, p) && !has_step(g, opts, trace_end(m, p))
}

/// No edge of any kind points into `v`: the node has no explicit
/// ancestor relationship at all.
pub open spec fn isolated_start(g: DocumentGraphView, v: int) -> bool {
    forall|e: int| 0 <= e < g.edges.len() ==> (#[trigger] g.edges[e]).to != v
}

pub open spec fn paths_view(r: Seq<Vec<usize>>) -> Seq<Seq<usize>> {
    r.map_values(|t: Vec<usize>| t@)
}

pub open spec fn trace_in_range(g: DocumentGraphView, p: Seq<usize>) -> bool {
    forall|i: int| 0 <= i < p.len() ==> (#[trigger] p[i]) < g.nodes.len()
}

/// The traces owed to one matched start node. A component with no
/// explicit ancestor relationship, queried for ancestors, yields the
/// single trace holding the document root (the implicit-root rule);
/// otherwise the set holds exactly the maximal traces from the node.
pub open spec fn trace_set_ok(
    g: DocumentGraphView,
    opts: QueryOptionsView,
    m: int,
    ts: Seq<Seq<usize>>,
) -> bool {
    if opts.direction == Direction::Ancestors && isolated_start(g, m) && m != 0 {
        ts == seq![seq![0usize]]
    } else {
        &&& forall|j: int| 0 <= j < ts.len() ==> is_max_trace(g, opts, m, #[trigger] ts[j])
        &&& forall|p: Seq<usize>| is_max_trace(g, opts, m, p) ==> ts.contains(p)
    }
}

/// Prefixing a qualifying hop onto a maximal trace of the hopped-to
/// node gives a maximal trace of the hopped-from node.
proof fn lemma_trace_compose(
    g: DocumentGraphView,
    opts: QueryOptionsView,
    v: int,
    u: usize,
    q: Seq<usize>,
)
    requires
        step(g, opts, v, u as int),
        is_max_trace(g, opts, u as int, q),
    ensures
        is_max_trace(g, opts, v, seq![u] + q),
{
    let p = seq![u] + q;
    assert forall|i: int| 0 <= i < p.len() implies step(g, opts, walk_prev(v, p, i), #[trigger] p[i]
        as int) by {
        if i == 0 {
            assert(p[0] == u);
        } else {
            assert(p[i] == q[i - 1]);
            assert(walk_prev(v, p, i) == walk_prev(u as int, q, i - 1));
            assert(step(g, opts, walk_prev(u as int, q, i - 1), q[i - 1] as int));
        }
    }
    assert(trace_end(v, p) == trace_end(u as int, q));
}

/// A nonempty maximal trace decomposes into its first hop and a
/// maximal trace of the hopped-to node.
proof fn lemma_trace_decompose(g: DocumentGraphView, opts: QueryOptionsView, v: int, p: Seq<usize>)
    requires
        is_max_trace(g, opts, v, p),
        p.len() > 0,
    ensures
        step(g, opts, v, p[0] as int),
        is_max_trace(g, opts, p[0] as int, p.drop_first()),
        p == seq![p[0]] + p.drop_first(),
{
    assert(step(g, opts, walk_prev(v, p, 0), p[0] as int));
    let q = p.drop_first();
    assert forall|i: int| 0 <= i < q.len() implies step(g, opts, walk_prev(p[0] as int, q, i), #[
        trigger] q[i] as int) by {
        assert(q[i] == p[i + 1]);
        assert(step(g, opts, walk_prev(v, p, i + 1), p[i + 1] as int));
        if i > 0 {
            assert(walk_prev(p[0] as int, q, i) == q[i - 1] as int);
            assert(q[i - 1] == p[i]);
        }
    }
    assert(trace_end(p[0] as int, q) == trace_end(v, p));
    assert(p =~= seq![p[0]] + q);
}

/// Whether the kind passes the filter.
fn kind_ok(opts: &QueryOptions, k: Relationship) -> (r: bool)
    ensures
        r == kind_allowed(opts@, k),
{
    if opts.relationships.len() == 0 {
        return true;
    }
    let mut i: usize = 0;
    while i < opts.relationships.len()
        invariant
            i <= opts.relationships@.len(),
            forall|j: int| 0 <= j < i as int ==> opts.relationships@[j] != k,
        decreases opts.relationships@.len() - i as int,
    {
        if opts.relationships[i] == k {
            return true;
        }
        i += 1;
    }
    proof {
        assert(forall|j: int| 0 <= j < opts@.relationships.len() ==> opts@.relationships[j] != k);
    }
    false
}

/// All maximal traces from node `v`, by depth-first expansion. The
/// result lists every maximal trace (possibly repeating one reachable
/// through parallel edges) and nothing else.
#[verifier::rlimit(80)]
fn traces_from(g: &DocumentGraph, opts: &QueryOptions, v: usize) -> (r: Vec<Vec<usize>>)
    requires
        g.wf(),
        v < g@.nodes.len(),
    ensures
        forall|j: int|
            0 <= j < r@.len() ==> is_max_trace(g@, opts@, v as int, #[trigger] r@[j]@)
                && trace_in_range(g@, r@[j]@),
        forall|p: Seq<usize>|
            is_max_trace(g@, opts@, v as int, p) ==> paths_view(r@).contains(p),
    decreases
            (if opts@.direction == Direction::Ancestors {
                g.spec_rank(v as int)
            } else {
                g@.nodes.len() - g.spec_rank(v as int)
            }),
{
    proof {
        g.lemma_wf_inv();
        g.lemma_rank_bounds(v as int);
    }
    let ghost gv = g@;
    let ghost ov = opts@;
    let ghost vi = v as int;
    let n_edges = g.edge_count();
    let mut result: Vec<Vec<usize>> = Vec::new();
    let mut found = false;
    let mut e: usize = 0;
    while e < n_edges
        invariant
            g.wf(),
            graph_inv(g@),
            v < g@.nodes.len(),
            gv == g@,
            ov == opts@,
            vi == v as int,
            n_edges == gv.edges.len(),
            e <= n_edges,
            forall|j: int|
                0 <= j < result@.len() ==> is_max_trace(gv, ov, vi, #[trigger] result@[j]@)
                    && trace_in_range(gv, result@[j]@),
            forall|p: Seq<usize>|
                (p.len() > 0 && is_max_trace(gv, ov, vi, p) && (exists|idx: int|
                    0 <= idx < e as int && edge_steps(#[trigger] gv.edges[idx], ov, vi, p[0] as int)))
                    ==> paths_view(result@).contains(p),
            found ==> has_step(gv, ov, vi),
            !found ==> result@.len() == 0,
            !found ==> forall|idx: int, u: int|
                0 <= idx < e as int ==> !(#[trigger] edge_steps(gv.edges[idx], ov, vi, u)),
        decreases n_edges - e,
    {
        let edge = g.edge_at(e);
        let (m_ok, u): (bool, usize) = match opts.direction {
            Direction::Ancestors => (edge.to == v, edge.from),
            Direction::Descendants => (edge.from == v, edge.to),
        };
        if m_ok && kind_ok(opts, edge.kind) {
            proof {
                assert(edge_steps(gv.edges[e as int], ov, vi, u as int));
                assert(step(gv, ov, vi, u as int));
                g.lemma_rank_increases(e as int);
                g.lemma_rank_bounds(v as int);
                g.lemma_rank_bounds(u as int);
            }
            let subs = traces_from(g, opts, u);
            let ghost res0 = result@;
            let mut k: usize = 0;
            while k < subs.len()
                invariant
                    gv == g@,
                    ov == opts@,
                    u < gv.nodes.len(),
                    step(gv, ov, vi, u as int),
                    k <= subs@.len(),
                    forall|j: int|
                        0 <= j < subs@.len() ==> is_max_trace(gv, ov, u as int, #[trigger] subs@[
                            j]@) && trace_in_range(gv, subs@[j]@),
                    forall|p2: Seq<usize>|
                        is_max_trace(gv, ov, u as int, p2) ==> paths_view(subs@).contains(p2),
                    result@.len() == res0.len() + k as int,
                    forall|j: int| 0 <= j < res0.len() ==> result@[j] == res0[j],
                    forall|j: int|
                        0 <= j < k as int ==> result@[res0.len() + j]@ == seq![u] + subs@[j]@,
                    forall|j: int|
                        0 <= j < result@.len() ==> is_max_trace(gv, ov, vi, #[trigger] result@[j]@)
                            && trace_in_range(gv, result@[j]@),
                decreases subs@.len() - k as int,
            {
                let sub = &subs[k];
                let mut t: Vec<usize> = Vec::new();
                t.push(u);
                let mut q: usize = 0;
                while q < sub.len()
                    invariant
                        t@.len() == 1 + q as int,
                        t@[0] == u,
                        q <= sub@.len(),
                        forall|x: int| 0 <= x < q as int ==> t@[1 + x] == sub@[x],
                    decreases sub@.len() - q as int,
                {
                    t.push(sub[q]);
                    q += 1;
                }
                proof {
                    assert(t@ =~= seq![u] + subs@[k as int]@);
                    lemma_trace_compose(gv, ov, vi, u, subs@[k as int]@);
                    assert forall|x: int| 0 <= x < t@.len() implies (#[trigger] t@[x])
                        < gv.nodes.len() by {
                        if x > 0 {
                            assert(t@[x] == subs@[k as int]@[x - 1]);
                        }
                    }
                }
                result.push(t);
                k += 1;
            }
            found = true;
            proof {
                assert forall|p: Seq<usize>|
                    (p.len() > 0 && is_max_trace(gv, ov, vi, p) && (exists|idx: int|
                        0 <= idx < e as int + 1 && edge_steps(
                            #[trigger] gv.edges[idx],
                            ov,
                            vi,
                            p[0] as int,
                        ))) implies paths_view(result@).contains(p) by {
                    let idx = choose|idx: int|
                        0 <= idx < e as int + 1 && edge_steps(gv.edges[idx], ov, vi, p[0] as int);
                    if idx < e as int {
                        let j = choose|j: int|
                            0 <= j < paths_view(res0).len() && paths_view(res0)[j] == p;
                        assert(paths_view(result@)[j] == p);
                    } else {
                        assert(edge_steps(gv.edges[e as int], ov, vi, p[0] as int));
                        assert(p[0] == u);
                        lemma_trace_decompose(gv, ov, vi, p);
                        assert(is_max_trace(gv, ov, u as int, p.drop_first()));
                        assert(paths_view(subs@).contains(p.drop_first()));
                        let jj = choose|jj: int|
                            0 <= jj < paths_view(subs@).len() && paths_view(subs@)[jj]
                                == p.drop_first();
                        assert(result@[res0.len() + jj]@ == seq![u] + subs@[jj]@);
                        assert(seq![u] + subs@[jj]@ == p);
                        assert(paths_view(result@)[res0.len() + jj] == p);
                    }
                }
            }
        } else {
            proof {
                assert forall|u2: int| !edge_steps(gv.edges[e as int], ov, vi, u2) by {}
            }
        }
        e += 1;
    }
    if !found {
        proof {
            assert(!has_step(gv, ov, vi)) by {
                if has_step(gv, ov, vi) {
                    let u = choose|u: int| step(gv, ov, vi, u);
                    let idx = choose|idx: int|
                        0 <= idx < gv.edges.len() && edge_steps(gv.edges[idx], ov, vi, u);
                    assert(!edge_steps(gv.edges[idx], ov, vi, u));
                }
            }
        }
        let t: Vec<usize> = Vec::new();
        result.push(t);
        proof {
            assert(result@.len() == 1);
            assert(result@[0]@ =~= Seq::<usize>::empty());
            assert(is_max_trace(gv, ov, vi, result@[0]@));
            assert forall|p: Seq<usize>| is_max_trace(gv, ov, vi, p) implies paths_view(
                result@,
            ).contains(p) by {
                if p.len() > 0 {
                    lemma_trace_decompose(gv, ov, vi, p);
                    assert(false);
                } else {
                    assert(p =~= result@[0]@);
                    assert(paths_view(result@)[0] == p);
                }
            }
        }
        return result;
    }
    proof {
        assert forall|p: Seq<usize>| is_max_trace(gv, ov, vi, p) implies paths_view(
            result@,
        ).contains(p) by {
            if p.len() == 0 {
                assert(has_step(gv, ov, vi));
                assert(trace_end(vi, p) == vi);
                assert(false);
            } else {
                lemma_trace_decompose(gv, ov, vi, p);
                let idx = choose|idx: int|
                    0 <= idx < gv.edges.len() && edge_steps(gv.edges[idx], ov, vi, p[0] as int);
                assert(0 <= idx < n_edges as int && edge_steps(gv.edges[idx], ov, vi, p[0] as int));
            }
        }
    }
    result
}

/// Whether no edge at all points into `v`.
fn is_isolated(g: &DocumentGraph, v: usize) -> (r: bool)
    ensures
        r == isolated_start(g@, v as int),
{
    let mut e: usize = 0;
    while e < g.edge_count()
        invariant
            e <= g@.edges.len(),
            forall|k: int| 0 <= k < e as int ==> (#[trigger] g@.edges[k]).to != v as int,
        decreases g@.edges.len() - e as int,
    {
        if g.edge_at(e).to == v {
            return false;
        }
        e += 1;
    }
    true
}

/// The traces of one matched start node, honouring the implicit-root
/// rule: a non-root node with no explicit ancestor relationship,
/// walked toward its ancestors, yields the single trace holding the
/// document root.
pub fn traces_for_match(g: &DocumentGraph, opts: &QueryOptions, m: usize) -> (r: Vec<Vec<usize>>)
    requires
        g.wf(),
        m < g@.nodes.len(),
    ensures
        trace_set_ok(g@, opts@, m as int, paths_view(r@)),
        forall|j: int| 0 <= j < r@.len() ==> trace_in_range(g@, #[trigger] r@[j]@),
{
    proof {
        g.lemma_wf_inv();
    }
    let anc = match opts.direction {
        Direction::Ancestors => true,
        Direction::Descendants => false,
    };
    if anc && m != 0 && is_isolated(g, m) {
        let mut t: Vec<usize> = Vec::new();
        t.push(0);
        let mut r: Vec<Vec<usize>> = Vec::new();
        r.push(t);
        proof {
            assert(r@[0]@ =~= seq![0usize]);
            assert(paths_view(r@) =~= seq![seq![0usize]]);
        }
        r
    } else {
        traces_from(g, opts, m)
    }
}

/// The implicit-root law: a non-root component with no explicit
/// ancestor relationship, queried for ancestors, yields exactly one
/// trace, whose sole entry is the document root node.
pub proof fn lemma_implicit_root(
    g: DocumentGraphView,
    opts: QueryOptionsView,
    m: int,
    ts: Seq<Seq<usize>>,
)
    requires
        trace_set_ok(g, opts, m, ts),
        opts.direction == Direction::Ancestors,
        isolated_start(g, m),
        m != 0,
    ensures
        ts == seq![seq![0usize]],
{
}

} // verus!
