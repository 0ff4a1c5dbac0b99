//! Query results: the paginated set of matched components, each with
//! its ordered traces, and the two composable reductions over them —
//! `root_traces` (the full traces) and `roots` (only the deduplicated
//! terminal nodes).

use vstd::prelude::*;
use crate::model::{GraphNode, GraphNodeView};

verus! {

/// One matched component: its own data, the document it lives in, and
/// its traces (each a sequence of nodes, nearest first).
#[derive(Debug, PartialEq, Eq)]
pub struct TraceItem {
    pub sbom_id: String,
    pub node_id: String,
    pub name: String,
    pub version: String,
    pub purls: Vec<String>,
    pub cpes: Vec<String>,
    pub traces: Vec<Vec<GraphNode>>,
}

#[verifier::ext_equal]
pub struct TraceItemView {
    pub sbom_id: Seq<char>,
    pub node_id: Seq<char>,
    pub name: Seq<char>,
    pub version: Seq<char>,
    pub purls: Seq<Seq<char>>,
    pub cpes: Seq<Seq<char>>,
    pub traces: Seq<Seq<GraphNodeView>>,
}

impl View for TraceItem {
    type V = TraceItemView;

    open spec fn view(&self) -> TraceItemView {
        TraceItemView {
            sbom_id: self.sbom_id@,
            node_id: self.node_id@,
            name: self.name@,
            version: self.version@,
            purls: self.purls@.map_values(|s: String| s@),
            cpes: self.cpes@.map_values(|s: String| s@),
            traces: self.traces@.map_values(
                |t: Vec<GraphNode>| t@.map_values(|n: GraphNode| n@),
            ),
        }
    }
}

/// A paginated result: `total` counts the distinct matched components
/// across all considered graphs before pagination; `items` is the
/// requested window of them, expanded into traces.
#[derive(Debug, PartialEq, Eq)]
pub struct TraceResult {
    pub total: u64,
    pub items: Vec<TraceItem>,
}

#[verifier::ext_equal]
pub struct TraceResultView {
    pub total: u64,
    pub items: Seq<TraceItemView>,
}

impl View for TraceResult {
    type V = TraceResultView;

    open spec fn view(&self) -> TraceResultView {
        TraceResultView {
            total: self.total,
            items: self.items@.map_values(|i: TraceItem| i@),
        }
    }
}

pub open spec fn nodes_has_id(s: Seq<GraphNodeView>, id: Seq<char>) -> bool {
    exists|i: int| 0 <= i < s.len() && s[i].node_id == id
}

/// The deduplicated terminal nodes of the first `k` traces, in order
/// of first appearance. Empty traces contribute nothing.
pub open spec fn roots_upto(ts: Seq<Seq<GraphNodeView>>, k: int) -> Seq<GraphNodeView>
    decreases k,
{
    if k <= 0 {
        Seq::empty()
    } else {
        let prev = roots_upto(ts, k - 1);
        let t = ts[k - 1];
        if t.len() == 0 {
            prev
        } else if nodes_has_id(prev, t.last().node_id) {
            prev
        } else {
            prev.push(t.last())
        }
    }
}

/// The `roots` reduction of a trace list: each deduplicated terminal
/// node, kept as a trace of length one.
pub open spec fn roots_of(ts: Seq<Seq<GraphNodeView>>) -> Seq<Seq<GraphNodeView>> {
    roots_upto(ts, ts.len() as int).map_values(|n: GraphNodeView| seq![n])
}

pub proof fn lemma_roots_upto_unique(ts: Seq<Seq<GraphNodeView>>, k: int)
    ensures
        forall|i: int, j: int|
            0 <= i < roots_upto(ts, k).len() && 0 <= j < i ==> roots_upto(ts, k)[i].node_id
                != roots_upto(ts, k)[j].node_id,
    decreases k,
{
    if k > 0 {
        lemma_roots_upto_unique(ts, k - 1);
        let prev = roots_upto(ts, k - 1);
        let cur = roots_upto(ts, k);
        let t = ts[k - 1];
        if t.len() == 0 || nodes_has_id(prev, t.last().node_id) {
        } else {
            assert forall|i: int, j: int|
                0 <= i < cur.len() && 0 <= j < i implies cur[i].node_id != cur[j].node_id by {
                if i < prev.len() {
                } else {
                    assert(cur[i] == t.last());
                    assert(cur[j] == prev[j]);
                    if prev[j].node_id == t.last().node_id {
                        assert(nodes_has_id(prev, t.last().node_id));
                    }
                }
            }
        }
    }
}

/// Reducing a list of unique single-node traces is the identity.
proof fn lemma_roots_of_singletons(s: Seq<GraphNodeView>, k: int)
    requires
        0 <= k <= s.len(),
        forall|i: int, j: int|
            0 <= i < s.len() && 0 <= j < i ==> s[i].node_id != s[j].node_id,
    ensures
        roots_upto(s.map_values(|n: GraphNodeView| seq![n]), k) == s.subrange(0, k),
    decreases k,
{
    let m = s.map_values(|n: GraphNodeView| seq![n]);
    if k <= 0 {
        assert(roots_upto(m, k) =~= s.subrange(0, 0));
    } else {
        lemma_roots_of_singletons(s, k - 1);
        let prev = roots_upto(m, k - 1);
        assert(prev == s.subrange(0, k - 1));
        assert(m[k - 1] == seq![s[k - 1]]);
        assert(m[k - 1].last() == s[k - 1]);
        assert(!nodes_has_id(prev, s[k - 1].node_id)) by {
            if nodes_has_id(prev, s[k - 1].node_id) {
                let i = choose|i: int|
                    0 <= i < prev.len() && prev[i].node_id == s[k - 1].node_id;
                assert(prev[i] == s[i]);
            }
        }
        assert(roots_upto(m, k) =~= s.subrange(0, k - 1).push(s[k - 1]));
        assert(s.subrange(0, k - 1).push(s[k - 1]) =~= s.subrange(0, k));
    }
}

/// The round-trip law of the reductions: applying `roots` twice gives
/// what one application gives — the reduction is idempotent.
pub proof fn lemma_roots_idempotent(ts: Seq<Seq<GraphNodeView>>)
    ensures
        roots_of(roots_of(ts)) == roots_of(ts),
{
    let s = roots_upto(ts, ts.len() as int);
    lemma_roots_upto_unique(ts, ts.len() as int);
    assert(roots_of(ts) == s.map_values(|n: GraphNodeView| seq![n]));
    assert(roots_of(ts).len() == s.len());
    lemma_roots_of_singletons(s, s.len() as int);
    assert(roots_upto(roots_of(ts), s.len() as int) == s.subrange(0, s.len() as int));
    assert(s.subrange(0, s.len() as int) =~= s);
    assert(roots_of(roots_of(ts)) == s.map_values(|n: GraphNodeView| seq![n]));
}

impl TraceItem {
    /// Deep copy with an exact contract.
    pub fn duplicate(&self) -> (r: TraceItem)
        ensures
            r@ == self@,
    {
        let mut traces: Vec<Vec<GraphNode>> = Vec::new();
        let mut i: usize = 0;
        while i < self.traces.len()
            invariant
                i <= self.traces@.len(),
                traces@.len() == i as int,
                forall|k: int|
                    0 <= k < i as int ==> traces@[k]@.map_values(|n: GraphNode| n@) == self.traces@[
                        k]@.map_values(|n: GraphNode| n@),
            decreases self.traces@.len() - i as int,
        {
            let src = &self.traces[i];
            let mut t: Vec<GraphNode> = Vec::new();
            let mut j: usize = 0;
            while j < src.len()
                invariant
                    j <= src@.len(),
                    t@.len() == j as int,
                    forall|k: int| 0 <= k < j as int ==> t@[k]@ == src@[k]@,
                decreases src@.len() - j as int,
            {
                t.push(src[j].duplicate());
                j += 1;
            }
            proof {
                assert(t@.map_values(|n: GraphNode| n@) =~= src@.map_values(|n: GraphNode| n@));
            }
            traces.push(t);
            i += 1;
        }
        let r = TraceItem {
            sbom_id: self.sbom_id.clone(),
            node_id: self.node_id.clone(),
            name: self.name.clone(),
            version: self.version.clone(),
            purls: self.purls.clone(),
            cpes: self.cpes.clone(),
            traces,
        };
        proof {
            assert(r@.purls =~= self@.purls);
            assert(r@.cpes =~= self@.cpes);
            assert(r@.traces =~= self@.traces);
            assert(r@ =~= self@);
        }
        r
    }
}

impl TraceResult {
    /// The full-trace reduction: every trace already runs to its
    /// ultimate terminal node, so this presents the result unchanged.
    /// Kept as its own step so that both reductions compose over one
    /// trace representation.
    pub fn root_traces(&self) -> (r: TraceResult)
        ensures
            r@ == self@,
    {
        let mut items: Vec<TraceItem> = Vec::new();
        let mut i: usize = 0;
        while i < self.items.len()
            invariant
                i <= self.items@.len(),
                items@.len() == i as int,
                forall|k: int| 0 <= k < i as int ==> items@[k]@ == self.items@[k]@,
            decreases self.items@.len() - i as int,
        {
            items.push(self.items[i].duplicate());
            i += 1;
        }
        let r = TraceResult { total: self.total, items };
        proof {
            assert(r@.items =~= self@.items);
            assert(r@ =~= self@);
        }
        r
    }

    /// The `roots` reduction: for each matched component, only the
    /// deduplicated terminal nodes of its traces, each kept as a trace
    /// of length one. `total` and the matched components are unchanged.
    pub fn roots(&self) -> (r: TraceResult)
        ensures
            r@.total == self@.total,
            r@.items.len() == self@.items.len(),
            forall|k: int|
                0 <= k < r@.items.len() ==> (#[trigger] r@.items[k]).sbom_id == self@.items[
                    k].sbom_id && r@.items[k].node_id == self@.items[k].node_id && r@.items[k].name
                    == self@.items[k].name && r@.items[k].version == self@.items[k].version
                    && r@.items[k].purls == self@.items[k].purls && r@.items[k].cpes == self@.items[
                    k].cpes && r@.items[k].traces == roots_of(self@.items[k].traces),
    {
        let mut items: Vec<TraceItem> = Vec::new();
        let mut i: usize = 0;
        while i < self.items.len()
            invariant
                i <= self.items@.len(),
                items@.len() == i as int,
                forall|k: int|
                    0 <= k < i as int ==> (#[trigger] items@[k]@).sbom_id == self.items@[
                        k]@.sbom_id && items@[k]@.node_id == self.items@[k]@.node_id && items@[
                        k]@.name == self.items@[k]@.name && items@[k]@.version == self.items@[
                        k]@.version && items@[k]@.purls == self.items@[k]@.purls && items@[k]@.cpes
                        == self.items@[k]@.cpes && items@[k]@.traces == roots_of(
                        self.items@[k]@.traces,
                    ),
            decreases self.items@.len() - i as int,
        {
            let src = &self.items[i];
            let mut acc: Vec<GraphNode> = Vec::new();
            let mut j: usize = 0;
            while j < src.traces.len()
                invariant
                    j <= src.traces@.len(),
                    acc@.map_values(|n: GraphNode| n@) == roots_upto(src@.traces, j as int),
                decreases src.traces@.len() - j as int,
            {
                let t = &src.traces[j];
                if t.len() > 0 {
                    let last = &t[t.len() - 1];
                    proof {
                        assert(src@.traces[j as int].last() == last@);
                    }
                    let mut seen = false;
                    let mut q: usize = 0;
                    while q < acc.len()
                        invariant
                            q <= acc@.len(),
                            seen ==> exists|x: int|
                                0 <= x < acc@.len() && (#[trigger] acc@[x]@).node_id
                                    == last@.node_id,
                            !seen ==> forall|x: int|
                                0 <= x < q as int ==> (#[trigger] acc@[x]@).node_id
                                    != last@.node_id,
                        decreases acc@.len() - q as int,
                    {
                        if acc[q].node_id == last.node_id {
                            proof {
                                assert(acc@[q as int]@.node_id == last@.node_id);
                            }
                            seen = true;
                        }
                        q += 1;
                    }
                    proof {
                        let prev = roots_upto(src@.traces, j as int);
                        assert(prev == acc@.map_values(|n: GraphNode| n@));
                        if seen {
                            let x = choose|x: int|
                                0 <= x < acc@.len() && acc@[x]@.node_id == last@.node_id;
                            assert(prev[x].node_id == last@.node_id);
                            assert(nodes_has_id(prev, src@.traces[j as int].last().node_id));
                        } else {
                            assert(!nodes_has_id(prev, src@.traces[j as int].last().node_id)) by {
                                if nodes_has_id(prev, src@.traces[j as int].last().node_id) {
                                    let x = choose|x: int|
                                        0 <= x < prev.len() && prev[x].node_id == src@.traces[
                                            j as int].last().node_id;
                                    assert(acc@[x]@.node_id == last@.node_id);
                                }
                            }
                        }
                    }
                    if !seen {
                        acc.push(last.duplicate());
                        proof {
                            assert(acc@.map_values(|n: GraphNode| n@) =~= roots_upto(
                                src@.traces,
                                j as int + 1,
                            ));
                        }
                    } else {
                        proof {
                            assert(acc@.map_values(|n: GraphNode| n@) =~= roots_upto(
                                src@.traces,
                                j as int + 1,
                            ));
                        }
                    }
                } else {
                    proof {
                        assert(src@.traces[j as int].len() == 0);
                        assert(acc@.map_values(|n: GraphNode| n@) =~= roots_upto(
                            src@.traces,
                            j as int + 1,
                        ));
                    }
                }
                j += 1;
            }
            let mut traces: Vec<Vec<GraphNode>> = Vec::new();
            let mut x: usize = 0;
            while x < acc.len()
                invariant
                    x <= acc@.len(),
                    traces@.len() == x as int,
                    forall|k: int|
                        0 <= k < x as int ==> (#[trigger] traces@[k]@).len() == 1 && traces@[
                            k]@[0]@ == acc@[k]@,
                decreases acc@.len() - x as int,
            {
                let mut t: Vec<GraphNode> = Vec::new();
                t.push(acc[x].duplicate());
                traces.push(t);
                x += 1;
            }
            let item = TraceItem {
                sbom_id: src.sbom_id.clone(),
                node_id: src.node_id.clone(),
                name: src.name.clone(),
                version: src.version.clone(),
                purls: src.purls.clone(),
                cpes: src.cpes.clone(),
                traces,
            };
            proof {
                assert(item@.purls =~= src@.purls);
                assert(item@.cpes =~= src@.cpes);
                assert(item@.traces =~= roots_of(src@.traces)) by {
                    let rs = roots_upto(src@.traces, src@.traces.len() as int);
                    assert(acc@.map_values(|n: GraphNode| n@) == rs);
                    assert(item@.traces.len() == rs.len());
                    assert forall|k: int| 0 <= k < rs.len() implies item@.traces[k] =~= roots_of(
                        src@.traces,
                    )[k] by {
                        assert(item@.traces[k] =~= seq![rs[k]]);
                    }
                }
            }
            items.push(item);
            i += 1;
        }
        let r = TraceResult { total: self.total, items };
        proof {
            assert forall|k: int| 0 <= k < r@.items.len() implies (#[trigger] r@.items[k]).sbom_id
                == self@.items[k].sbom_id && r@.items[k].node_id == self@.items[k].node_id
                && r@.items[k].name == self@.items[k].name && r@.items[k].version == self@.items[
                k].version && r@.items[k].purls == self@.items[k].purls && r@.items[k].cpes
                == self@.items[k].cpes && r@.items[k].traces == roots_of(
                self@.items[k].traces,
            ) by {
                assert(r@.items[k] == items@[k]@);
                assert(self@.items[k] == self.items@[k]@);
            }
        }
        r
    }
}

} // verus!
