//! Analysis service: the public entry points tying builder, cache,
//! matcher and traversal together — bulk load, single-document load,
//! paginated retrieval, cache introspection and clearing.
//!
//! The cache evolution of every operation is pinned by `load_cache`:
//! documents are processed in store order; a cached document is
//! reused, a cyclic one is skipped, an acyclic one is built and
//! admitted exactly when it fits the remaining budget. A graph that
//! fails admission still serves the current call's results.

use vstd::prelude::*;
use crate::builder::{build_graph, spec_graph};
use crate::cache::{cache_has_doc, sum_est, GraphCache};
use crate::matcher::{check_reference, matches_node, node_matches, ref_valid, ComponentReference, ComponentReferenceView};
use crate::model::{acyclic, graph_inv, spec_estimate, DocumentGraph, DocumentGraphView, GraphNode, GraphNodeView};
use crate::store::{doc_wf, SbomStore, StoredDocument, StoredDocumentView};
use crate::traces::{TraceItem, TraceItemView, TraceResult, TraceResultView};
use crate::traversal::{isolated_start, is_max_trace, trace_in_range, trace_set_ok, traces_for_match, Direction, QueryOptions, QueryOptionsView};

verus! {

/// Errors of the analysis boundary. A cyclic document and a failed
/// admission are not errors; they only shape the result.
#[derive(Debug, Clone, Copy, PartialEq, Eq, Structural)]
pub enum AnalysisError {
    /// The reference is malformed (an unparseable package URL).
    InvalidReference,
    /// The named document is not in the store.
    DocumentNotFound,
}

/// Service configuration: the hard cache budget in bytes.
#[derive(Debug, Clone, Copy, PartialEq, Eq, Structural)]
pub struct AnalysisConfig {
    pub max_cache_size: u64,
}

impl Default for AnalysisConfig {
    /// The default budget is effectively unbounded.
    fn default() -> (r: AnalysisConfig)
        ensures
            r.max_cache_size == u64::MAX,
    {
        AnalysisConfig { max_cache_size: u64::MAX }
    }
}

/// Pagination window over the distinct matched components.
/// A `limit` of zero means no limit.
#[derive(Debug, Clone, Copy, PartialEq, Eq, Structural)]
pub struct Paginated {
    pub offset: u64,
    pub limit: u64,
}

impl Default for Paginated {
    fn default() -> (r: Paginated)
        ensures
            r.offset == 0 && r.limit == 0,
    {
        Paginated { offset: 0, limit: 0 }
    }
}

/// Counts reported by `status`: all documents in the store against
/// the graphs currently cached.
#[derive(Debug, Clone, Copy, PartialEq, Eq, Structural)]
pub struct AnalysisStatus {
    pub sbom_count: u64,
    pub graph_count: u64,
}

/// The cache contents after processing `docs` in order against budget
/// `max`, starting from `gs`.
pub open spec fn load_cache(
    gs: Seq<DocumentGraphView>,
    docs: Seq<StoredDocumentView>,
    max: u64,
) -> Seq<DocumentGraphView>
    decreases docs.len(),
{
    if docs.len() == 0 {
        gs
    } else {
        let d = docs[0];
        let rest = docs.drop_first();
        if cache_has_doc(gs, d.document_id) {
            load_cache(gs, rest, max)
        } else if !acyclic(spec_graph(d)) {
            load_cache(gs, rest, max)
        } else if sum_est(gs) + spec_estimate(spec_graph(d)) <= max {
            load_cache(gs.push(spec_graph(d)), rest, max)
        } else {
            load_cache(gs, rest, max)
        }
    }
}

/// The cached graph carrying the given document identifier.
pub open spec fn cached_graph(gs: Seq<DocumentGraphView>, id: Seq<char>) -> DocumentGraphView {
    gs[choose|i: int| 0 <= i < gs.len() && gs[i].document_id == id]
}

/// The graphs a load pass considers, in store order: cached graphs are
/// reused, cyclic documents contribute nothing, and every acyclic
/// build is included whether or not it was admitted.
pub open spec fn load_considered(
    gs: Seq<DocumentGraphView>,
    docs: Seq<StoredDocumentView>,
    max: u64,
) -> Seq<DocumentGraphView>
    decreases docs.len(),
{
    if docs.len() == 0 {
        Seq::empty()
    } else {
        let d = docs[0];
        let rest = docs.drop_first();
        if cache_has_doc(gs, d.document_id) {
            seq![cached_graph(gs, d.document_id)] + load_considered(gs, rest, max)
        } else if !acyclic(spec_graph(d)) {
            load_considered(gs, rest, max)
        } else if sum_est(gs) + spec_estimate(spec_graph(d)) <= max {
            seq![spec_graph(d)] + load_considered(gs.push(spec_graph(d)), rest, max)
        } else {
            seq![spec_graph(d)] + load_considered(gs, rest, max)
        }
    }
}

/// Indices of the matching nodes among the first `k` of a graph.
pub open spec fn matched_upto(g: DocumentGraphView, r: ComponentReferenceView, k: int) -> Seq<int>
    decreases k,
{
    if k <= 0 {
        Seq::empty()
    } else {
        let prev = matched_upto(g, r, k - 1);
        if node_matches(g.nodes[k - 1], r) {
            prev.push(k - 1)
        } else {
            prev
        }
    }
}

pub open spec fn matched_in(g: DocumentGraphView, r: ComponentReferenceView) -> Seq<int> {
    matched_upto(g, r, g.nodes.len() as int)
}

/// All matches across the first `k` considered graphs, as pairs of
/// graph index and node index, in graph order then node order.
pub open spec fn all_matches_upto(
    cons: Seq<DocumentGraphView>,
    r: ComponentReferenceView,
    k: int,
) -> Seq<(int, int)>
    decreases k,
{
    if k <= 0 {
        Seq::empty()
    } else {
        all_matches_upto(cons, r, k - 1) + matched_in(cons[k - 1], r).map_values(
            |m: int| (k - 1, m),
        )
    }
}

pub open spec fn all_matches(cons: Seq<DocumentGraphView>, r: ComponentReferenceView) -> Seq<
    (int, int),
> {
    all_matches_upto(cons, r, cons.len() as int)
}

/// First index of the pagination window.
pub open spec fn page_start(offset: u64, total: int) -> int {
    if offset as int > total {
        total
    } else {
        offset as int
    }
}

/// One-past-last index of the pagination window.
pub open spec fn page_end(offset: u64, limit: u64, total: int) -> int {
    let s = page_start(offset, total);
    if limit == 0 || limit as int > total - s {
        total
    } else {
        s + limit as int
    }
}

/// The node values along an index trace.
pub open spec fn trace_nodes(g: DocumentGraphView, p: Seq<usize>) -> Seq<GraphNodeView> {
    p.map_values(|i: usize| g.nodes[i as int])
}

/// Index of the node of a graph carrying the given identifier;
/// meaningful when one exists, unique when the graph is well formed.
pub open spec fn spec_node_index(g: DocumentGraphView, id: Seq<char>) -> int {
    choose|i: int| 0 <= i < g.nodes.len() && g.nodes[i].node_id == id
}

/// The index trace a node trace denotes, recovered through the unique
/// node identifiers.
pub open spec fn trace_indices(g: DocumentGraphView, t: Seq<GraphNodeView>) -> Seq<usize> {
    t.map_values(|n: GraphNodeView| spec_node_index(g, n.node_id) as usize)
}

/// A trace of node values that faithfully denotes a maximal index
/// trace of the matched node.
pub open spec fn is_max_node_trace(
    g: DocumentGraphView,
    opts: QueryOptionsView,
    m: int,
    t: Seq<GraphNodeView>,
) -> bool {
    &&& t == trace_nodes(g, trace_indices(g, t))
    &&& is_max_trace(g, opts, m, trace_indices(g, t))
}

/// What an item's traces must hold, stated over node values: the
/// implicit-root trace for an isolated start, otherwise exactly the
/// maximal traces of the matched node.
pub open spec fn item_traces_ok(
    g: DocumentGraphView,
    opts: QueryOptionsView,
    m: int,
    traces: Seq<Seq<GraphNodeView>>,
) -> bool {
    if opts.direction == Direction::Ancestors && isolated_start(g, m) && m != 0 {
        traces == seq![seq![g.nodes[0]]]
    } else {
        &&& forall|j: int|
            0 <= j < traces.len() ==> is_max_node_trace(g, opts, m, #[trigger] traces[j])
        &&& forall|p: Seq<usize>|
            is_max_trace(g, opts, m, p) ==> traces.contains(trace_nodes(g, p))
    }
}

/// One result item for the match `(g, m)`: the matched node's own
/// data, its owning document, and its traces.
pub open spec fn item_ok(
    g: DocumentGraphView,
    opts: QueryOptionsView,
    m: int,
    it: TraceItemView,
) -> bool {
    &&& it.sbom_id == g.document_id
    &&& it.node_id == g.nodes[m].node_id
    &&& it.name == g.nodes[m].name
    &&& it.version == g.nodes[m].version
    &&& it.purls == g.nodes[m].purls
    &&& it.cpes == g.nodes[m].cpes
    &&& item_traces_ok(g, opts, m, it.traces)
}

/// The whole retrieval contract: `total` counts every match across
/// the considered graphs, and `items` is the pagination window of
/// them, each expanded per `item_ok`.
pub open spec fn result_ok(
    cons: Seq<DocumentGraphView>,
    rf: ComponentReferenceView,
    opts: QueryOptionsView,
    pg: Paginated,
    res: TraceResultView,
) -> bool {
    let ms = all_matches(cons, rf);
    let s = page_start(pg.offset, ms.len() as int);
    let e = page_end(pg.offset, pg.limit, ms.len() as int);
    &&& res.total == ms.len()
    &&& res.items.len() == e - s
    &&& forall|k: int|
        0 <= k < res.items.len() ==> 0 <= #[trigger] ms[s + k].0 < cons.len() && 0 <= ms[s + k].1
            < cons[ms[s + k].0].nodes.len() && item_ok(cons[ms[s + k].0], opts, ms[s + k].1, res.items[k])
}

/// Loading never lowers the aggregate cache size (admission
/// monotonicity: growth only, reset only by clearing).
pub proof fn lemma_load_monotonic(gs: Seq<DocumentGraphView>, docs: Seq<StoredDocumentView>, max: u64)
    ensures
        sum_est(load_cache(gs, docs, max)) >= sum_est(gs),
    decreases docs.len(),
{
    if docs.len() > 0 {
        let d = docs[0];
        let rest = docs.drop_first();
        if cache_has_doc(gs, d.document_id) {
            lemma_load_monotonic(gs, rest, max);
        } else if !acyclic(spec_graph(d)) {
            lemma_load_monotonic(gs, rest, max);
        } else if sum_est(gs) + spec_estimate(spec_graph(d)) <= max {
            lemma_load_monotonic(gs.push(spec_graph(d)), rest, max);
            assert(gs.push(spec_graph(d)).drop_last() =~= gs);
        } else {
            lemma_load_monotonic(gs, rest, max);
        }
    }
}

/// The cache never holds more entries than the documents processed:
/// at most one admission per store document, and none for a cyclic or
/// budget-rejected one.
pub proof fn lemma_graph_count_bounded(
    gs: Seq<DocumentGraphView>,
    docs: Seq<StoredDocumentView>,
    max: u64,
)
    ensures
        load_cache(gs, docs, max).len() <= gs.len() + docs.len(),
    decreases docs.len(),
{
    if docs.len() > 0 {
        let d = docs[0];
        let rest = docs.drop_first();
        if cache_has_doc(gs, d.document_id) {
            lemma_graph_count_bounded(gs, rest, max);
        } else if !acyclic(spec_graph(d)) {
            lemma_graph_count_bounded(gs, rest, max);
        } else if sum_est(gs) + spec_estimate(spec_graph(d)) <= max {
            lemma_graph_count_bounded(gs.push(spec_graph(d)), rest, max);
        } else {
            lemma_graph_count_bounded(gs, rest, max);
        }
    }
}

/// A document whose graph is cyclic is never cached and never
/// considered: no graph of its identifier enters either set.
pub proof fn lemma_cycle_exclusion(
    gs: Seq<DocumentGraphView>,
    docs: Seq<StoredDocumentView>,
    max: u64,
    id: Seq<char>,
)
    requires
        !cache_has_doc(gs, id),
        forall|j: int|
            0 <= j < docs.len() && (#[trigger] docs[j].document_id) == id ==> !acyclic(
                spec_graph(docs[j]),
            ),
    ensures
        !cache_has_doc(load_cache(gs, docs, max), id),
        forall|k: int|
            0 <= k < load_considered(gs, docs, max).len() ==> (#[trigger] load_considered(
                gs,
                docs,
                max,
            )[k].document_id) != id,
    decreases docs.len(),
{
    if docs.len() > 0 {
        let d = docs[0];
        let rest = docs.drop_first();
        let lc = load_considered(gs, docs, max);
        assert(forall|j: int|
            0 <= j < rest.len() && (#[trigger] rest[j].document_id) == id ==> !acyclic(
                spec_graph(rest[j]),
            ));
        if cache_has_doc(gs, d.document_id) {
            lemma_cycle_exclusion(gs, rest, max, id);
            assert(cached_graph(gs, d.document_id).document_id == d.document_id);
            assert(d.document_id != id) by {
                if d.document_id == id {
                    assert(cache_has_doc(gs, id));
                }
            }
            assert(lc == seq![cached_graph(gs, d.document_id)] + load_considered(gs, rest, max));
            assert forall|k: int| 0 <= k < lc.len() implies (#[trigger] lc[k].document_id)
                != id by {
                if k > 0 {
                    assert(lc[k] == load_considered(gs, rest, max)[k - 1]);
                }
            }
        } else if !acyclic(spec_graph(d)) {
            lemma_cycle_exclusion(gs, rest, max, id);
            assert(lc == load_considered(gs, rest, max));
        } else {
            assert(d.document_id != id) by {
                if d.document_id == id {
                    assert(!acyclic(spec_graph(d)));
                }
            }
            assert(spec_graph(d).document_id == d.document_id);
            if sum_est(gs) + spec_estimate(spec_graph(d)) <= max {
                assert(!cache_has_doc(gs.push(spec_graph(d)), id)) by {
                    if cache_has_doc(gs.push(spec_graph(d)), id) {
                        let k = choose|k: int|
                            0 <= k < gs.push(spec_graph(d)).len() && gs.push(spec_graph(d))[
                                k].document_id == id;
                        if k < gs.len() {
                            assert(cache_has_doc(gs, id));
                        }
                    }
                }
                lemma_cycle_exclusion(gs.push(spec_graph(d)), rest, max, id);
                assert(lc == seq![spec_graph(d)] + load_considered(
                    gs.push(spec_graph(d)),
                    rest,
                    max,
                ));
                assert forall|k: int| 0 <= k < lc.len() implies (#[trigger] lc[k].document_id)
                    != id by {
                    if k > 0 {
                        assert(lc[k] == load_considered(gs.push(spec_graph(d)), rest, max)[k - 1]);
                    }
                }
            } else {
                lemma_cycle_exclusion(gs, rest, max, id);
                assert(lc == seq![spec_graph(d)] + load_considered(gs, rest, max));
                assert forall|k: int| 0 <= k < lc.len() implies (#[trigger] lc[k].document_id)
                    != id by {
                    if k > 0 {
                        assert(lc[k] == load_considered(gs, rest, max)[k - 1]);
                    }
                }
            }
        }
    }
}

/// In a result drawn from graphs none of which belong to the given
/// document, no item reports that document: a cyclic document
/// contributes nothing to any query result.
pub proof fn lemma_excluded_document_invisible(
    cons: Seq<DocumentGraphView>,
    rf: ComponentReferenceView,
    opts: QueryOptionsView,
    pg: Paginated,
    res: TraceResultView,
    id: Seq<char>,
)
    requires
        result_ok(cons, rf, opts, pg, res),
        forall|k: int| 0 <= k < cons.len() ==> (#[trigger] cons[k].document_id) != id,
    ensures
        forall|k: int| 0 <= k < res.items.len() ==> (#[trigger] res.items[k].sbom_id) != id,
{
    let ms = all_matches(cons, rf);
    let s = page_start(pg.offset, ms.len() as int);
    assert forall|k: int| 0 <= k < res.items.len() implies (#[trigger] res.items[k].sbom_id)
        != id by {
        assert(item_ok(cons[ms[s + k].0], opts, ms[s + k].1, res.items[k]));
    }
}

/// What one document's load step does, by case: reuse when cached,
/// skip when cyclic, admit when it fits, otherwise consider without
/// retaining.
proof fn lemma_load_single(gs: Seq<DocumentGraphView>, d: StoredDocumentView, max: u64)
    ensures
        cache_has_doc(gs, d.document_id) ==> load_cache(gs, seq![d], max) == gs
            && load_considered(gs, seq![d], max) == seq![cached_graph(gs, d.document_id)],
        !cache_has_doc(gs, d.document_id) && !acyclic(spec_graph(d)) ==> load_cache(
            gs,
            seq![d],
            max,
        ) == gs && load_considered(gs, seq![d], max) == Seq::<DocumentGraphView>::empty(),
        !cache_has_doc(gs, d.document_id) && acyclic(spec_graph(d)) && sum_est(gs)
            + spec_estimate(spec_graph(d)) <= max ==> load_cache(gs, seq![d], max) == gs.push(
            spec_graph(d),
        ) && load_considered(gs, seq![d], max) == seq![spec_graph(d)],
        !cache_has_doc(gs, d.document_id) && acyclic(spec_graph(d)) && sum_est(gs)
            + spec_estimate(spec_graph(d)) > max ==> load_cache(gs, seq![d], max) == gs
            && load_considered(gs, seq![d], max) == seq![spec_graph(d)],
{
    let s1 = seq![d];
    let e = Seq::<StoredDocumentView>::empty();
    assert(s1[0] == d);
    assert(s1.drop_first() =~= e);
    assert(load_cache(gs, e, max) == gs);
    assert(load_cache(gs.push(spec_graph(d)), e, max) == gs.push(spec_graph(d)));
    assert(load_considered(gs, e, max) == Seq::<DocumentGraphView>::empty());
    assert(load_considered(gs.push(spec_graph(d)), e, max) == Seq::<DocumentGraphView>::empty());
    if cache_has_doc(gs, d.document_id) {
        assert(load_cache(gs, s1, max) == load_cache(gs, s1.drop_first(), max));
        assert(load_considered(gs, s1, max) =~= seq![cached_graph(gs, d.document_id)]);
    } else if !acyclic(spec_graph(d)) {
        assert(load_cache(gs, s1, max) == load_cache(gs, s1.drop_first(), max));
        assert(load_considered(gs, s1, max) =~= Seq::<DocumentGraphView>::empty());
    } else if sum_est(gs) + spec_estimate(spec_graph(d)) <= max {
        assert(load_cache(gs, s1, max) == load_cache(gs.push(spec_graph(d)), s1.drop_first(), max));
        assert(load_considered(gs, s1, max) =~= seq![spec_graph(d)]);
    } else {
        assert(load_cache(gs, s1, max) == load_cache(gs, s1.drop_first(), max));
        assert(load_considered(gs, s1, max) =~= seq![spec_graph(d)]);
    }
}

/// Processing one document, then the rest, is processing all of them.
proof fn lemma_load_step(gs: Seq<DocumentGraphView>, docs: Seq<StoredDocumentView>, max: u64)
    requires
        docs.len() > 0,
    ensures
        load_cache(gs, docs, max) == load_cache(
            load_cache(gs, seq![docs[0]], max),
            docs.drop_first(),
            max,
        ),
        load_considered(gs, docs, max) == load_considered(gs, seq![docs[0]], max)
            + load_considered(load_cache(gs, seq![docs[0]], max), docs.drop_first(), max),
{
    let d = docs[0];
    let s1 = seq![d];
    let rest = docs.drop_first();
    lemma_load_single(gs, d, max);
    if cache_has_doc(gs, d.document_id) {
        assert(load_considered(gs, docs, max) =~= load_considered(gs, s1, max) + load_considered(
            gs,
            rest,
            max,
        ));
    } else if !acyclic(spec_graph(d)) {
        assert(load_considered(gs, docs, max) =~= load_considered(gs, s1, max) + load_considered(
            gs,
            rest,
            max,
        ));
    } else if sum_est(gs) + spec_estimate(spec_graph(d)) <= max {
        assert(load_considered(gs, docs, max) =~= load_considered(gs, s1, max) + load_considered(
            gs.push(spec_graph(d)),
            rest,
            max,
        ));
    } else {
        assert(load_considered(gs, docs, max) =~= load_considered(gs, s1, max) + load_considered(
            gs,
            rest,
            max,
        ));
    }
}

/// Cache lookup, build on miss, admission attempt: one document's
/// load step. `None` exactly for a cyclic document.
fn get_or_build(cache: &mut GraphCache, doc: &StoredDocument) -> (r: Option<DocumentGraph>)
    requires
        doc_wf(doc@),
        old(cache).wf(),
    ensures
        final(cache).wf(),
        final(cache).spec_max() == old(cache).spec_max(),
        final(cache).graphs_view() == load_cache(
            old(cache).graphs_view(),
            seq![doc@],
            old(cache).spec_max(),
        ),
        match r {
            Some(g) => g.wf() && load_considered(
                old(cache).graphs_view(),
                seq![doc@],
                old(cache).spec_max(),
            ) == seq![g@],
            None => load_considered(old(cache).graphs_view(), seq![doc@], old(cache).spec_max())
                =~= Seq::<DocumentGraphView>::empty(),
        },
        final(cache).spec_total() >= old(cache).spec_total(),
{
    let ghost gs0 = cache.graphs_view();
    let ghost max = cache.spec_max();
    let ghost ds = seq![doc@];
    proof {
        assert(ds.drop_first() =~= Seq::<StoredDocumentView>::empty());
        assert(ds[0] == doc@);
    }
    match cache.find(&doc.document_id) {
        Some(i) => {
            proof {
                cache.lemma_wf_facts();
                assert(gs0[i as int].document_id == doc@.document_id);
                assert(cache_has_doc(gs0, doc@.document_id));
                let c = choose|k: int|
                    0 <= k < gs0.len() && gs0[k].document_id == doc@.document_id;
                assert(c == i as int);
                assert(cached_graph(gs0, doc@.document_id) == gs0[i as int]);
                lemma_load_single(gs0, doc@, max);
            }
            let g = cache.graph_at(i).duplicate();
            Some(g)
        },
        None => {
            proof {
                assert(!cache_has_doc(gs0, doc@.document_id));
            }
            match build_graph(doc) {
                Ok(g) => {
                    let copy = g.duplicate();
                    let ghost est = spec_estimate(g@);
                    let _admitted = cache.insert(g);
                    proof {
                        lemma_load_single(gs0, doc@, max);
                        if sum_est(gs0) + spec_estimate(spec_graph(doc@)) <= max {
                            assert(cache.graphs_view() == gs0.push(spec_graph(doc@)));
                        } else {
                            assert(cache.graphs_view() == gs0);
                        }
                    }
                    Some(copy)
                },
                Err(_) => {
                    proof {
                        lemma_load_single(gs0, doc@, max);
                    }
                    None
                },
            }
        },
    }
}

/// Loads every document of the store from index `i` on, returning the
/// considered graphs in store order.
fn load_from(cache: &mut GraphCache, store: &SbomStore, i: usize) -> (r: Vec<DocumentGraph>)
    requires
        store.wf(),
        old(cache).wf(),
        i <= store@.len(),
    ensures
        final(cache).wf(),
        final(cache).spec_max() == old(cache).spec_max(),
        final(cache).graphs_view() == load_cache(
            old(cache).graphs_view(),
            store@.skip(i as int),
            old(cache).spec_max(),
        ),
        r@.map_values(|g: DocumentGraph| g@) == load_considered(
            old(cache).graphs_view(),
            store@.skip(i as int),
            old(cache).spec_max(),
        ),
        forall|j: int| 0 <= j < r@.len() ==> (#[trigger] r@[j]).wf(),
        final(cache).spec_total() >= old(cache).spec_total(),
    decreases store@.len() - i as int,
{
    let ghost gs0 = cache.graphs_view();
    let ghost max = cache.spec_max();
    if i == store.len() {
        let r: Vec<DocumentGraph> = Vec::new();
        proof {
            assert(store@.skip(i as int) =~= Seq::<StoredDocumentView>::empty());
            assert(r@.map_values(|g: DocumentGraph| g@) =~= Seq::<DocumentGraphView>::empty());
        }
        r
    } else {
        let ghost docs = store@.skip(i as int);
        proof {
            assert(docs[0] == store@[i as int]);
            assert(docs.drop_first() =~= store@.skip(i as int + 1));
            assert(doc_wf(store@[i as int]));
            lemma_load_step(gs0, docs, max);
        }
        let doc = store.doc_at(i);
        let first = get_or_build(cache, doc);
        let mut rest = load_from(cache, store, i + 1);
        let ghost restv = rest@.map_values(|g: DocumentGraph| g@);
        let mut out: Vec<DocumentGraph> = Vec::new();
        match first {
            Some(g) => {
                out.push(g);
            },
            None => {
            },
        }
        let ghost outv0 = out@.map_values(|g: DocumentGraph| g@);
        proof {
            assert(outv0 =~= load_considered(gs0, seq![doc@], max));
        }
        let mut k: usize = 0;
        let ghost rest0 = rest@;
        let n_rest = rest.len();
        while k < n_rest
            invariant
                k <= n_rest,
                n_rest == rest0.len(),
                rest@ =~= rest0.skip(k as int),
                out@.len() == outv0.len() + k as int,
                forall|j: int| 0 <= j < outv0.len() ==> (#[trigger] out@[j]@) == outv0[j],
                forall|j: int|
                    0 <= j < k as int ==> (#[trigger] out@[outv0.len() + j]) == rest0[j],
                forall|j: int| 0 <= j < rest0.len() ==> (#[trigger] rest0[j]).wf(),
                forall|j: int| 0 <= j < out@.len() ==> (#[trigger] out@[j]).wf(),
            decreases n_rest - k,
        {
            let g = rest.remove(0);
            proof {
                assert(rest0.skip(k as int)[0] == rest0[k as int]);
                assert(rest0.skip(k as int).drop_first() =~= rest0.skip(k as int + 1));
            }
            out.push(g);
            k += 1;
        }
        proof {
            assert(out@.map_values(|g: DocumentGraph| g@) =~= outv0 + restv) by {
                assert forall|j: int| 0 <= j < out@.len() implies out@.map_values(
                    |g: DocumentGraph| g@,
                )[j] == (outv0 + restv)[j] by {
                    if j < outv0.len() {
                    } else {
                        let jj = j - outv0.len();
                        assert(out@[outv0.len() + jj] == rest0[jj]);
                        assert(out@[j]@ == restv[jj]);
                    }
                }
            }
            assert(outv0 + restv =~= load_considered(gs0, store@.skip(i as int), max));
        }
        out
    }
}

/// Every node of a walk lies in range when edge endpoints do.
proof fn lemma_walk_in_range(
    g: DocumentGraphView,
    opts: QueryOptionsView,
    m: int,
    p: Seq<usize>,
)
    requires
        graph_inv(g),
        crate::traversal::is_walk(g, opts, m, p),
    ensures
        forall|i: int| 0 <= i < p.len() ==> (#[trigger] p[i]) < g.nodes.len(),
{
    assert forall|i: int| 0 <= i < p.len() implies (#[trigger] p[i]) < g.nodes.len() by {
        assert(crate::traversal::step(
            g,
            opts,
            crate::traversal::walk_prev(m, p, i),
            p[i] as int,
        ));
        let e = choose|e: int|
            0 <= e < g.edges.len() && crate::traversal::edge_steps(
                g.edges[e],
                opts,
                crate::traversal::walk_prev(m, p, i),
                p[i] as int,
            );
        assert(g.edges[e].from < g.nodes.len() && g.edges[e].to < g.nodes.len());
    }
}

/// An in-range index trace is recovered exactly from its node values.
proof fn lemma_trace_round_trip(g: DocumentGraphView, p: Seq<usize>)
    requires
        graph_inv(g),
        forall|i: int| 0 <= i < p.len() ==> (#[trigger] p[i]) < g.nodes.len(),
    ensures
        trace_indices(g, trace_nodes(g, p)) == p,
{
    let t = trace_nodes(g, p);
    assert forall|i: int| 0 <= i < p.len() implies trace_indices(g, t)[i] == p[i] by {
        assert(t[i] == g.nodes[p[i] as int]);
        let c = choose|c: int| 0 <= c < g.nodes.len() && g.nodes[c].node_id == t[i].node_id;
        assert(g.nodes[p[i] as int].node_id == t[i].node_id);
        assert(c == p[i] as int);
    }
    assert(trace_indices(g, t) =~= p);
}

/// Node traces assembled from an index trace set satisfy the item
/// contract.
proof fn lemma_item_traces(
    g: DocumentGraphView,
    opts: QueryOptionsView,
    m: int,
    ts: Seq<Seq<usize>>,
    tv: Seq<Seq<GraphNodeView>>,
)
    requires
        trace_set_ok(g, opts, m, ts),
        tv.len() == ts.len(),
        forall|j: int| 0 <= j < ts.len() ==> #[trigger] tv[j] == trace_nodes(g, ts[j]),
        graph_inv(g),
    ensures
        item_traces_ok(g, opts, m, tv),
{
    if opts.direction == Direction::Ancestors && isolated_start(g, m) && m != 0 {
        assert(ts == seq![seq![0usize]]);
        assert(tv[0] == trace_nodes(g, seq![0usize]));
        assert(trace_nodes(g, seq![0usize]) =~= seq![g.nodes[0]]);
        assert(tv =~~= seq![seq![g.nodes[0]]]);
        assert(item_traces_ok(g, opts, m, tv));
    } else {
        assert forall|j: int| 0 <= j < tv.len() implies is_max_node_trace(
            g,
            opts,
            m,
            #[trigger] tv[j],
        ) by {
            assert(is_max_trace(g, opts, m, ts[j]));
            assert(tv[j] == trace_nodes(g, ts[j]));
            lemma_walk_in_range(g, opts, m, ts[j]);
            lemma_trace_round_trip(g, ts[j]);
            assert(trace_indices(g, tv[j]) == ts[j]);
        }
        assert forall|p: Seq<usize>| is_max_trace(g, opts, m, p) implies tv.contains(
            trace_nodes(g, p),
        ) by {
            assert(ts.contains(p));
            let j = choose|j: int| 0 <= j < ts.len() && ts[j] == p;
            assert(tv[j] == trace_nodes(g, p));
        }
        assert(item_traces_ok(g, opts, m, tv));
    }
}

/// Matches every considered graph against the reference, paginates
/// the matches, and expands the window into trace items.
fn assemble_result(
    considered: &Vec<DocumentGraph>,
    reference: &ComponentReference,
    options: &QueryOptions,
    paginated: Paginated,
) -> (r: TraceResult)
    requires
        forall|j: int| 0 <= j < considered@.len() ==> (#[trigger] considered@[j]).wf(),
    ensures
        result_ok(
            considered@.map_values(|g: DocumentGraph| g@),
            reference@,
            options@,
            paginated,
            r@,
        ),
{
    let ghost cons = considered@.map_values(|g: DocumentGraph| g@);
    let ghost rf = reference@;
    let mut matches: Vec<(usize, usize)> = Vec::new();
    let mut gi: usize = 0;
    while gi < considered.len()
        invariant
            gi <= considered@.len(),
            cons == considered@.map_values(|g: DocumentGraph| g@),
            rf == reference@,
            forall|j: int| 0 <= j < considered@.len() ==> (#[trigger] considered@[j]).wf(),
            matches@.len() == all_matches_upto(cons, rf, gi as int).len(),
            forall|j: int|
                0 <= j < matches@.len() ==> ((#[trigger] matches@[j]).0 as int, matches@[j].1
                    as int) == all_matches_upto(cons, rf, gi as int)[j],
            forall|j: int|
                0 <= j < matches@.len() ==> (#[trigger] matches@[j]).0 < considered@.len()
                    && matches@[j].1 < cons[matches@[j].0 as int].nodes.len(),
        decreases considered@.len() - gi as int,
    {
        let g = &considered[gi];
        let n = g.node_count();
        let ghost base = all_matches_upto(cons, rf, gi as int);
        let mut m: usize = 0;
        while m < n
            invariant
                gi < considered@.len(),
                m <= n,
                n == cons[gi as int].nodes.len(),
                cons == considered@.map_values(|g2: DocumentGraph| g2@),
                rf == reference@,
                base == all_matches_upto(cons, rf, gi as int),
                g@ == cons[gi as int],
                forall|j: int| 0 <= j < considered@.len() ==> (#[trigger] considered@[j]).wf(),
                matches@.len() == base.len() + matched_upto(cons[gi as int], rf, m as int).len(),
                forall|j: int|
                    0 <= j < base.len() ==> ((#[trigger] matches@[j]).0 as int, matches@[j].1
                        as int) == base[j],
                forall|j: int|
                    0 <= j < matched_upto(cons[gi as int], rf, m as int).len() ==> (#[trigger]
                    matches@[base.len() + j]) == (gi, matched_upto(cons[gi as int], rf, m as int)[
                        j] as usize),
                forall|j: int|
                    0 <= j < matched_upto(cons[gi as int], rf, m as int).len()
                        ==> 0 <= #[trigger] matched_upto(cons[gi as int], rf, m as int)[j] < m
                        as int,
                forall|j: int|
                    0 <= j < matches@.len() ==> (#[trigger] matches@[j]).0 < considered@.len()
                        && matches@[j].1 < cons[matches@[j].0 as int].nodes.len(),
        decreases n - m as int,
        {
            let ghost mu0 = matched_upto(cons[gi as int], rf, m as int);
            if matches_node(g.node_at(m), reference) {
                proof {
                    assert(node_matches(cons[gi as int].nodes[m as int], rf));
                    assert(matched_upto(cons[gi as int], rf, m as int + 1) == mu0.push(m as int));
                }
                matches.push((gi, m));
            } else {
                proof {
                    assert(!node_matches(cons[gi as int].nodes[m as int], rf));
                    assert(matched_upto(cons[gi as int], rf, m as int + 1) == mu0);
                }
            }
            m += 1;
        }
        proof {
            let mi = matched_in(cons[gi as int], rf);
            assert(mi == matched_upto(cons[gi as int], rf, n as int));
            assert(all_matches_upto(cons, rf, gi as int + 1) == base + mi.map_values(
                |mm: int| (gi as int, mm),
            ));
            assert forall|j: int|
                0 <= j < matches@.len() implies ((#[trigger] matches@[j]).0 as int, matches@[j].1
                as int) == all_matches_upto(cons, rf, gi as int + 1)[j] by {
                if j < base.len() {
                    assert(all_matches_upto(cons, rf, gi as int + 1)[j] == base[j]);
                } else {
                    assert(matches@[base.len() + (j - base.len())] == (
                        gi,
                        mi[j - base.len()] as usize,
                    ));
                    assert(all_matches_upto(cons, rf, gi as int + 1)[j] == mi.map_values(
                        |mm: int| (gi as int, mm),
                    )[j - base.len()]);
                }
            }
        }
        gi += 1;
    }
    let ghost ms = all_matches(cons, rf);
    proof {
        assert(matches@.len() == ms.len());
        assert(forall|j: int|
            0 <= j < matches@.len() ==> ((#[trigger] matches@[j]).0 as int, matches@[j].1 as int)
                == ms[j]);
    }
    let total_us = matches.len();
    let start: usize = if paginated.offset > total_us as u64 {
        total_us
    } else {
        paginated.offset as usize
    };
    proof {
        assert(start as int == page_start(paginated.offset, ms.len() as int));
    }
    let end: usize = if paginated.limit == 0 || paginated.limit > (total_us - start) as u64 {
        total_us
    } else {
        start + paginated.limit as usize
    };
    proof {
        assert(end as int == page_end(paginated.offset, paginated.limit, ms.len() as int));
    }
    let mut items: Vec<TraceItem> = Vec::new();
    let mut k: usize = start;
    while k < end
        invariant
            start <= k <= end,
            end <= total_us,
            total_us == matches@.len(),
            ms == all_matches(cons, rf),
            ms.len() == matches@.len(),
            cons == considered@.map_values(|g2: DocumentGraph| g2@),
            rf == reference@,
            forall|j: int|
                0 <= j < matches@.len() ==> ((#[trigger] matches@[j]).0 as int, matches@[j].1
                    as int) == ms[j],
            forall|j: int| 0 <= j < considered@.len() ==> (#[trigger] considered@[j]).wf(),
            forall|j: int|
                0 <= j < matches@.len() ==> (#[trigger] matches@[j]).0 < considered@.len()
                    && matches@[j].1 < cons[matches@[j].0 as int].nodes.len(),
            items@.len() == k - start,
            forall|x: int|
                0 <= x < items@.len() ==> 0 <= (#[trigger] ms[start + x]).0 < cons.len(),
            forall|x: int|
                0 <= x < items@.len() ==> 0 <= (#[trigger] ms[start + x]).1 < cons[ms[start
                    + x].0].nodes.len(),
            forall|x: int|
                0 <= x < items@.len() ==> item_ok(
                    cons[ms[start + x].0],
                    options@,
                    ms[start + x].1,
                    (#[trigger] items@[x])@,
                ),
        decreases end - k as int,
    {
        let pr = matches[k];
        proof {
            assert(ms[k as int] == (pr.0 as int, pr.1 as int));
        }
        let g = &considered[pr.0];
        proof {
            g.lemma_wf_inv();
        }
        let node = g.node_at(pr.1);
        let tr = traces_for_match(g, options, pr.1);
        let mut traces: Vec<Vec<GraphNode>> = Vec::new();
        let mut x: usize = 0;
        while x < tr.len()
            invariant
                x <= tr@.len(),
                g.wf(),
                graph_inv(g@),
                forall|j: int| 0 <= j < tr@.len() ==> trace_in_range(g@, #[trigger] tr@[j]@),
                traces@.len() == x as int,
                forall|j: int|
                    0 <= j < x as int ==> (#[trigger] traces@[j]@).map_values(
                        |nd: GraphNode| nd@,
                    ) == trace_nodes(g@, tr@[j]@),
            decreases tr@.len() - x as int,
        {
            let path = &tr[x];
            let mut t: Vec<GraphNode> = Vec::new();
            let mut y: usize = 0;
            while y < path.len()
                invariant
                    y <= path@.len(),
                    g.wf(),
                    graph_inv(g@),
                    trace_in_range(g@, path@),
                    t@.len() == y as int,
                    forall|z: int|
                        0 <= z < y as int ==> (#[trigger] t@[z]@) == g@.nodes[path@[z] as int],
                decreases path@.len() - y as int,
            {
                t.push(g.node_at(path[y]).duplicate());
                y += 1;
            }
            proof {
                assert(t@.map_values(|nd: GraphNode| nd@) =~= trace_nodes(g@, path@));
            }
            traces.push(t);
            x += 1;
        }
        let item = TraceItem {
            sbom_id: g.document_id().clone(),
            node_id: node.node_id.clone(),
            name: node.name.clone(),
            version: node.version.clone(),
            purls: node.purls.clone(),
            cpes: node.cpes.clone(),
            traces,
        };
        proof {
            let gv = cons[pr.0 as int];
            let mi = pr.1 as int;
            assert(node@ == gv.nodes[mi]);
            assert(item@.sbom_id == gv.document_id);
            assert(item@.node_id == gv.nodes[mi].node_id);
            assert(item@.purls =~= gv.nodes[mi].purls);
            assert(item@.cpes =~= gv.nodes[mi].cpes);
            assert(item@.traces.len() == tr@.len());
            assert forall|j: int| 0 <= j < tr@.len() implies #[trigger] item@.traces[j]
                == trace_nodes(gv, crate::traversal::paths_view(tr@)[j]) by {
                assert(item@.traces[j] == traces@[j]@.map_values(|nd: GraphNode| nd@));
            }
            lemma_item_traces(
                gv,
                options@,
                mi,
                crate::traversal::paths_view(tr@),
                item@.traces,
            );
            assert(item_ok(gv, options@, mi, item@));
        }
        let ghost items0 = items@;
        items.push(item);
        proof {
            assert(items@ == items0.push(item));
            assert(cons.len() == considered@.len());
            assert forall|x: int|
                0 <= x < items@.len() implies 0 <= (#[trigger] ms[start + x]).0 < cons.len() && 0
                <= ms[start + x].1 < cons[ms[start + x].0].nodes.len() && item_ok(
                cons[ms[start + x].0],
                options@,
                ms[start + x].1,
                items@[x]@,
            ) by {
                if x == k as int - start as int {
                    assert(items@[x]@ == item@);
                    assert(start + x == k as int);
                    assert(ms[start + x] == (pr.0 as int, pr.1 as int));
                    assert(item_ok(cons[pr.0 as int], options@, pr.1 as int, item@));
                } else {
                    assert(items@[x] == items0[x]);
                    assert(items@[x]@ == items0[x]@);
                }
            }
        }
        k += 1;
    }
    let r = TraceResult { total: total_us as u64, items };
    proof {
        assert(r@.total == ms.len());
        assert(r@.items.len() == page_end(paginated.offset, paginated.limit, ms.len() as int)
            - page_start(paginated.offset, ms.len() as int));
        assert forall|k2: int|
            0 <= k2 < r@.items.len() implies 0 <= #[trigger] ms[page_start(
            paginated.offset,
            ms.len() as int,
        ) + k2].0 < cons.len() && 0 <= ms[page_start(paginated.offset, ms.len() as int)
            + k2].1 < cons[ms[page_start(paginated.offset, ms.len() as int) + k2].0].nodes.len()
            && item_ok(
            cons[ms[page_start(paginated.offset, ms.len() as int) + k2].0],
            options@,
            ms[page_start(paginated.offset, ms.len() as int) + k2].1,
            r@.items[k2],
        ) by {
            assert(r@.items[k2] == items@[k2]@);
        }
    }
    r
}

/// Whether the store holds a document with the given identifier.
pub open spec fn store_has_doc(docs: Seq<StoredDocumentView>, id: Seq<char>) -> bool {
    exists|i: int| 0 <= i < docs.len() && docs[i].document_id == id
}

/// The stored document carrying the given identifier.
pub open spec fn store_doc(docs: Seq<StoredDocumentView>, id: Seq<char>) -> StoredDocumentView {
    docs[choose|i: int| 0 <= i < docs.len() && docs[i].document_id == id]
}

/// The process-wide analysis handle: the public entry points and the
/// graph cache behind them. Created once at service start; callers
/// serialize access to it, and every check-admission-insert step is
/// one call on the cache.
#[derive(Debug)]
pub struct AnalysisService {
    cache: GraphCache,
}

impl AnalysisService {
    /// The cached graph values, in admission order.
    pub closed spec fn cache_view(&self) -> Seq<DocumentGraphView> {
        self.cache.graphs_view()
    }

    pub closed spec fn spec_cache_total(&self) -> u64 {
        self.cache.spec_total()
    }

    pub closed spec fn spec_cache_max(&self) -> u64 {
        self.cache.spec_max()
    }

    pub closed spec fn wf(&self) -> bool {
        self.cache.wf()
    }

    pub fn new(config: AnalysisConfig) -> (r: AnalysisService)
        ensures
            r.wf(),
            r.cache_view().len() == 0,
            r.spec_cache_total() == 0,
            r.spec_cache_max() == config.max_cache_size,
    {
        AnalysisService { cache: GraphCache::new(config.max_cache_size) }
    }

    /// Forces the build-and-admission step for every store document
    /// lacking a cache entry, returning all graphs considered: cached
    /// and freshly built ones, with or without admission, but never a
    /// cyclic document's.
    pub fn load_all_graphs(&mut self, store: &SbomStore) -> (r: Vec<DocumentGraph>)
        requires
            store.wf(),
            old(self).wf(),
        ensures
            final(self).wf(),
            final(self).spec_cache_max() == old(self).spec_cache_max(),
            final(self).cache_view() == load_cache(
                old(self).cache_view(),
                store@,
                old(self).spec_cache_max(),
            ),
            r@.map_values(|g: DocumentGraph| g@) == load_considered(
                old(self).cache_view(),
                store@,
                old(self).spec_cache_max(),
            ),
            forall|j: int| 0 <= j < r@.len() ==> (#[trigger] r@[j]).wf(),
            final(self).spec_cache_total() >= old(self).spec_cache_total(),
    {
        proof {
            assert(store@.skip(0) =~= store@);
        }
        load_from(&mut self.cache, store, 0)
    }

    /// Ensures every loadable document is built and cached, matches
    /// the reference across all considered graphs, and returns the
    /// paginated traces. A malformed package URL reference is
    /// rejected, exactly when `ref_valid` fails.
    pub fn retrieve(
        &mut self,
        store: &SbomStore,
        reference: &ComponentReference,
        options: &QueryOptions,
        paginated: Paginated,
    ) -> (r: Result<TraceResult, AnalysisError>)
        requires
            store.wf(),
            old(self).wf(),
        ensures
            final(self).wf(),
            final(self).spec_cache_max() == old(self).spec_cache_max(),
            final(self).spec_cache_total() >= old(self).spec_cache_total(),
            r is Err <==> !ref_valid(reference@),
            r is Err ==> r->Err_0 == AnalysisError::InvalidReference && final(self).cache_view()
                == old(self).cache_view() && final(self).spec_cache_total()
                == old(self).spec_cache_total(),
            r is Ok ==> final(self).cache_view() == load_cache(
                old(self).cache_view(),
                store@,
                old(self).spec_cache_max(),
            ) && result_ok(
                load_considered(old(self).cache_view(), store@, old(self).spec_cache_max()),
                reference@,
                options@,
                paginated,
                r->Ok_0@,
            ),
    {
        if !check_reference(reference) {
            return Err(AnalysisError::InvalidReference);
        }
        proof {
            assert(store@.skip(0) =~= store@);
        }
        let considered = load_from(&mut self.cache, store, 0);
        let res = assemble_result(&considered, reference, options, paginated);
        Ok(res)
    }

    /// As `retrieve`, restricted to one document, built and cached on
    /// demand. An unknown document identifier is an error; a cyclic
    /// document is not — it yields an empty result.
    pub fn retrieve_single(
        &mut self,
        store: &SbomStore,
        document_id: &String,
        reference: &ComponentReference,
        options: &QueryOptions,
        paginated: Paginated,
    ) -> (r: Result<TraceResult, AnalysisError>)
        requires
            store.wf(),
            old(self).wf(),
        ensures
            final(self).wf(),
            final(self).spec_cache_max() == old(self).spec_cache_max(),
            final(self).spec_cache_total() >= old(self).spec_cache_total(),
            !ref_valid(reference@) ==> r == Err::<TraceResult, AnalysisError>(
                AnalysisError::InvalidReference,
            ) && final(self).cache_view() == old(self).cache_view(),
            ref_valid(reference@) && !store_has_doc(store@, document_id@) ==> r == Err::<
                TraceResult,
                AnalysisError,
            >(AnalysisError::DocumentNotFound) && final(self).cache_view()
                == old(self).cache_view(),
            ref_valid(reference@) && store_has_doc(store@, document_id@) ==> r is Ok
                && final(self).cache_view() == load_cache(
                old(self).cache_view(),
                seq![store_doc(store@, document_id@)],
                old(self).spec_cache_max(),
            ) && result_ok(
                load_considered(
                    old(self).cache_view(),
                    seq![store_doc(store@, document_id@)],
                    old(self).spec_cache_max(),
                ),
                reference@,
                options@,
                paginated,
                r->Ok_0@,
            ),
    {
        if !check_reference(reference) {
            return Err(AnalysisError::InvalidReference);
        }
        match store.find_document(document_id) {
            None => {
                proof {
                    if store_has_doc(store@, document_id@) {
                        let i = choose|i: int|
                            0 <= i < store@.len() && store@[i].document_id == document_id@;
                        assert(false);
                    }
                }
                Err(AnalysisError::DocumentNotFound)
            },
            Some(di) => {
                proof {
                    assert(store_has_doc(store@, document_id@));
                    let c = choose|i: int|
                        0 <= i < store@.len() && store@[i].document_id == document_id@;
                    assert(c == di as int);
                    assert(store_doc(store@, document_id@) == store@[di as int]);
                    assert(doc_wf(store@[di as int]));
                }
                let doc = store.doc_at(di);
                let first = get_or_build(&mut self.cache, doc);
                let mut considered: Vec<DocumentGraph> = Vec::new();
                match first {
                    Some(g) => {
                        considered.push(g);
                        proof {
                            assert(considered@.map_values(|g2: DocumentGraph| g2@)
                                =~= load_considered(
                                old(self).cache_view(),
                                seq![store@[di as int]],
                                old(self).spec_cache_max(),
                            ));
                        }
                    },
                    None => {
                        proof {
                            assert(considered@.map_values(|g2: DocumentGraph| g2@)
                                =~= load_considered(
                                old(self).cache_view(),
                                seq![store@[di as int]],
                                old(self).spec_cache_max(),
                            ));
                        }
                    },
                }
                let res = assemble_result(&considered, reference, options, paginated);
                Ok(res)
            },
        }
    }

    /// The store's document count against the cache's graph count. A
    /// cyclic or budget-rejected document counts in the first, never
    /// in the second.
    pub fn status(&self, store: &SbomStore) -> (r: AnalysisStatus)
        ensures
            r.sbom_count == store@.len(),
            r.graph_count == self.cache_view().len(),
    {
        AnalysisStatus { sbom_count: store.len() as u64, graph_count: self.cache.len() as u64 }
    }

    /// Drops all cached graphs; size and count read zero at once, and
    /// later queries rebuild on demand.
    pub fn clear_all_graphs(&mut self)
        ensures
            final(self).wf(),
            final(self).cache_view().len() == 0,
            final(self).spec_cache_total() == 0,
            final(self).spec_cache_max() == old(self).spec_cache_max(),
    {
        self.cache.clear();
    }

    pub fn cache_size_used(&self) -> (r: u64)
        ensures
            r == self.spec_cache_total(),
    {
        self.cache.size_used()
    }

    pub fn cache_len(&self) -> (r: u64)
        ensures
            r == self.cache_view().len(),
    {
        self.cache.len() as u64
    }
}


} // verus!
