//! Graph cache: a keyed store of built graphs with byte-size
//! accounting and non-evicting admission control. A newly built graph
//! is admitted exactly when it fits the remaining budget; entries are
//! never evicted to make room, and the aggregate size only grows until
//! the cache is cleared.

use vstd::prelude::*;
use crate::model::{spec_estimate, DocumentGraph, DocumentGraphView};

verus! {

/// Aggregate estimated size of a list of graph values.
pub open spec fn sum_est(gs: Seq<DocumentGraphView>) -> int
    decreases gs.len(),
{
    if gs.len() == 0 {
        0
    } else {
        sum_est(gs.drop_last()) + spec_estimate(gs.last())
    }
}

/// Whether some cached graph carries the given document identifier.
pub open spec fn cache_has_doc(gs: Seq<DocumentGraphView>, id: Seq<char>) -> bool {
    exists|i: int| 0 <= i < gs.len() && gs[i].document_id == id
}

/// The cache handle. All mutation goes through its methods; the
/// check-admission-then-insert step is one call, so the accounting can
/// never over-admit.
#[derive(Debug)]
pub struct GraphCache {
    graphs: Vec<DocumentGraph>,
    total_bytes: u64,
    max_bytes: u64,
}

impl GraphCache {
    /// The cached graph values, in admission order.
    pub closed spec fn graphs_view(&self) -> Seq<DocumentGraphView> {
        self.graphs@.map_values(|g: DocumentGraph| g@)
    }

    pub closed spec fn spec_total(&self) -> u64 {
        self.total_bytes
    }

    pub closed spec fn spec_max(&self) -> u64 {
        self.max_bytes
    }

    /// Cache invariant: every entry well formed, document identifiers
    /// unique, the aggregate exactly the sum of the entries' estimates,
    /// and the aggregate within the budget.
    pub closed spec fn wf(&self) -> bool {
        &&& forall|i: int| 0 <= i < self.graphs@.len() ==> (#[trigger] self.graphs@[i]).wf()
        &&& forall|i: int, j: int|
            0 <= i < self.graphs@.len() && 0 <= j < self.graphs@.len() && i != j
                ==> self.graphs@[i]@.document_id != self.graphs@[j]@.document_id
        &&& self.total_bytes as int == sum_est(self.graphs_view())
        &&& self.total_bytes <= self.max_bytes
    }

    /// Facts of a well-formed cache, for callers that cannot see the
    /// invariant's body.
    pub proof fn lemma_wf_facts(&self)
        requires
            self.wf(),
        ensures
            self.spec_total() as int == sum_est(self.graphs_view()),
            self.spec_total() <= self.spec_max(),
            forall|i: int, j: int|
                0 <= i < self.graphs_view().len() && 0 <= j < self.graphs_view().len() && i != j
                    ==> self.graphs_view()[i].document_id != self.graphs_view()[j].document_id,
    {
    }

    pub fn new(max_bytes: u64) -> (r: GraphCache)
        ensures
            r.wf(),
            r.graphs_view().len() == 0,
            r.spec_total() == 0,
            r.spec_max() == max_bytes,
    {
        GraphCache { graphs: Vec::new(), total_bytes: 0, max_bytes }
    }

    pub fn len(&self) -> (r: usize)
        ensures
            r == self.graphs_view().len(),
    {
        self.graphs.len()
    }

    pub fn size_used(&self) -> (r: u64)
        ensures
            r == self.spec_total(),
    {
        self.total_bytes
    }

    /// Drops every entry; the aggregate size resets to zero. The
    /// budget is kept.
    pub fn clear(&mut self)
        ensures
            final(self).wf(),
            final(self).graphs_view().len() == 0,
            final(self).spec_total() == 0,
            final(self).spec_max() == old(self).spec_max(),
    {
        self.graphs = Vec::new();
        self.total_bytes = 0;
    }

    /// Index of the entry of the given document, if cached.
    pub fn find(&self, document_id: &String) -> (r: Option<usize>)
        ensures
            match r {
                Some(i) => i < self.graphs_view().len() && self.graphs_view()[
                    i as int].document_id == document_id@,
                None => !cache_has_doc(self.graphs_view(), document_id@),
            },
    {
        let mut i: usize = 0;
        while i < self.graphs.len()
            invariant
                i <= self.graphs@.len(),
                forall|k: int|
                    0 <= k < i as int ==> self.graphs_view()[k].document_id != document_id@,
            decreases self.graphs@.len() - i as int,
        {
            if *self.graphs[i].document_id() == *document_id {
                proof {
                    assert(self.graphs_view()[i as int].document_id == document_id@);
                }
                return Some(i);
            }
            proof {
                assert(self.graphs_view()[i as int].document_id != document_id@);
            }
            i += 1;
        }
        proof {
            if cache_has_doc(self.graphs_view(), document_id@) {
                let k = choose|k: int|
                    0 <= k < self.graphs_view().len() && self.graphs_view()[k].document_id
                        == document_id@;
                assert(false);
            }
        }
        None
    }

    pub fn graph_at(&self, i: usize) -> (r: &DocumentGraph)
        requires
            self.wf(),
            i < self.graphs_view().len(),
        ensures
            r@ == self.graphs_view()[i as int],
            r.wf(),
    {
        &self.graphs[i]
    }

    /// The one admission step: the graph enters the cache exactly when
    /// the aggregate plus its estimate stays within the budget. A
    /// rejected graph is simply not retained; nothing is evicted, and
    /// the aggregate never shrinks.
    pub fn insert(&mut self, g: DocumentGraph) -> (admitted: bool)
        requires
            old(self).wf(),
            g.wf(),
            !cache_has_doc(old(self).graphs_view(), g@.document_id),
        ensures
            final(self).wf(),
            final(self).spec_max() == old(self).spec_max(),
            admitted <==> sum_est(old(self).graphs_view()) + spec_estimate(g@)
                <= old(self).spec_max(),
            admitted ==> final(self).graphs_view() == old(self).graphs_view().push(g@)
                && final(self).spec_total() == old(self).spec_total() + spec_estimate(g@),
            !admitted ==> final(self).graphs_view() == old(self).graphs_view()
                && final(self).spec_total() == old(self).spec_total(),
            final(self).spec_total() >= old(self).spec_total(),
    {
        let est = g.estimate_bytes();
        if est <= self.max_bytes - self.total_bytes {
            let ghost gs0 = self.graphs_view();
            self.total_bytes = self.total_bytes + est;
            self.graphs.push(g);
            proof {
                assert(self.graphs_view() =~= gs0.push(g@));
                assert(self.graphs_view().drop_last() =~= gs0);
                assert(sum_est(self.graphs_view()) == sum_est(gs0) + spec_estimate(g@));
                assert forall|i: int, j: int|
                    0 <= i < self.graphs@.len() && 0 <= j < self.graphs@.len() && i != j implies
                    self.graphs@[i]@.document_id != self.graphs@[j]@.document_id by {
                    if i == gs0.len() {
                        if self.graphs@[j]@.document_id == g@.document_id {
                            assert(gs0[j] == self.graphs@[j]@);
                            assert(cache_has_doc(gs0, g@.document_id));
                        }
                    } else if j == gs0.len() {
                        if self.graphs@[i]@.document_id == g@.document_id {
                            assert(gs0[i] == self.graphs@[i]@);
                            assert(cache_has_doc(gs0, g@.document_id));
                        }
                    } else {
                        assert(gs0[i] == self.graphs@[i]@ && gs0[j] == self.graphs@[j]@);
                    }
                }
            }
            true
        } else {
            false
        }
    }
}

} // verus!
