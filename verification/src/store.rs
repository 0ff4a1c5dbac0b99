//! Row-oriented input of the engine: component rows and relationship
//! rows of ingested documents, held as plain values. The relational
//! store itself is an external collaborator; callers hand the engine a
//! snapshot of its rows through this module.

use vstd::prelude::*;
use crate::model::Relationship;

verus! {

/// One component row of a document: the in-document identifier and the
/// descriptive fields of the component.
#[derive(Debug)]
pub struct ComponentRow {
    pub node_id: String,
    pub name: String,
    pub version: String,
    pub purls: Vec<String>,
    pub cpes: Vec<String>,
}

#[verifier::ext_equal]
pub struct ComponentRowView {
    pub node_id: Seq<char>,
    pub name: Seq<char>,
    pub version: Seq<char>,
    pub purls: Seq<Seq<char>>,
    pub cpes: Seq<Seq<char>>,
}

impl View for ComponentRow {
    type V = ComponentRowView;

    open spec fn view(&self) -> ComponentRowView {
        ComponentRowView {
            node_id: self.node_id@,
            name: self.name@,
            version: self.version@,
            purls: self.purls@.map_values(|s: String| s@),
            cpes: self.cpes@.map_values(|s: String| s@),
        }
    }
}

/// One relationship row: the source depends on (contains, describes,
/// ...) the target.
#[derive(Debug)]
pub struct RelationshipRow {
    pub source_id: String,
    pub target_id: String,
    pub kind: Relationship,
}

#[verifier::ext_equal]
pub struct RelationshipRowView {
    pub source_id: Seq<char>,
    pub target_id: Seq<char>,
    pub kind: Relationship,
}

impl View for RelationshipRow {
    type V = RelationshipRowView;

    open spec fn view(&self) -> RelationshipRowView {
        RelationshipRowView {
            source_id: self.source_id@,
            target_id: self.target_id@,
            kind: self.kind,
        }
    }
}

/// All rows of one ingested document: its identifier, the identifier
/// and display name of its synthetic root node, and its component and
/// relationship rows.
#[derive(Debug)]
pub struct StoredDocument {
    pub document_id: String,
    pub root_id: String,
    pub root_name: String,
    pub components: Vec<ComponentRow>,
    pub relationships: Vec<RelationshipRow>,
}

#[verifier::ext_equal]
pub struct StoredDocumentView {
    pub document_id: Seq<char>,
    pub root_id: Seq<char>,
    pub root_name: Seq<char>,
    pub components: Seq<ComponentRowView>,
    pub relationships: Seq<RelationshipRowView>,
}

impl View for StoredDocument {
    type V = StoredDocumentView;

    open spec fn view(&self) -> StoredDocumentView {
        StoredDocumentView {
            document_id: self.document_id@,
            root_id: self.root_id@,
            root_name: self.root_name@,
            components: self.components@.map_values(|c: ComponentRow| c@),
            relationships: self.relationships@.map_values(|r: RelationshipRow| r@),
        }
    }
}

/// A document's rows are well formed when component identifiers are
/// unique within the document and distinct from the root identifier.
pub open spec fn doc_wf(d: StoredDocumentView) -> bool {
    &&& forall|i: int, j: int|
        0 <= i < d.components.len() && 0 <= j < d.components.len() && i != j
            ==> d.components[i].node_id != d.components[j].node_id
    &&& forall|i: int| 0 <= i < d.components.len() ==> d.components[i].node_id != d.root_id
}

/// Rejections raised at the ingestion boundary.
#[derive(Debug, Clone, Copy, PartialEq, Eq, Structural)]
pub enum StoreError {
    /// A document with the same identifier is already in the store.
    DuplicateDocument,
    /// Two component rows of the document share an identifier, or one
    /// reuses the root identifier.
    DuplicateNode,
}

/// In-memory snapshot of the relational store's documents, keyed by
/// document identifier.
#[derive(Debug)]
pub struct SbomStore {
    docs: Vec<StoredDocument>,
}

impl View for SbomStore {
    type V = Seq<StoredDocumentView>;

    closed spec fn view(&self) -> Seq<StoredDocumentView> {
        self.docs@.map_values(|d: StoredDocument| d@)
    }
}

impl SbomStore {
    /// Store invariant: every document well formed, document
    /// identifiers unique.
    pub open spec fn wf(&self) -> bool {
        &&& forall|i: int| 0 <= i < self@.len() ==> doc_wf(#[trigger] self@[i])
        &&& forall|i: int, j: int|
            0 <= i < self@.len() && 0 <= j < self@.len() && i != j ==> self@[i].document_id
                != self@[j].document_id
    }

    pub fn new() -> (r: SbomStore)
        ensures
            r.wf(),
            r@.len() == 0,
    {
        SbomStore { docs: Vec::new() }
    }

    pub fn len(&self) -> (r: usize)
        ensures
            r == self@.len(),
    {
        self.docs.len()
    }

    pub fn doc_at(&self, i: usize) -> (r: &StoredDocument)
        requires
            i < self@.len(),
        ensures
            r@ == self@[i as int],
    {
        &self.docs[i]
    }

    /// Index of the document with the given identifier, if any.
    pub fn find_document(&self, document_id: &String) -> (r: Option<usize>)
        ensures
            match r {
                Some(i) => i < self@.len() && self@[i as int].document_id == document_id@,
                None => forall|i: int| 0 <= i < self@.len() ==> self@[i].document_id != document_id@,
            },
    {
        let mut i: usize = 0;
        while i < self.docs.len()
            invariant
                i <= self@.len(),
                forall|k: int| 0 <= k < i as int ==> self@[k].document_id != document_id@,
            decreases self@.len() - i as int,
        {
            if self.docs[i].document_id == *document_id {
                return Some(i);
            }
            i += 1;
        }
        None
    }

    /// Admits a document's rows into the snapshot. Rejected if its
    /// identifier is already present, or if its component identifiers
    /// collide; accepted otherwise, appending it unchanged.
    pub fn ingest_document(&mut self, doc: StoredDocument) -> (r: Result<(), StoreError>)
        requires
            old(self).wf(),
        ensures
            final(self).wf(),
            match r {
                Ok(()) => final(self)@ == old(self)@.push(doc@) && doc_wf(doc@) && (forall|i: int|
                    0 <= i < old(self)@.len() ==> old(self)@[i].document_id != doc@.document_id),
                Err(StoreError::DuplicateDocument) => final(self)@ == old(self)@ && (exists|i: int|
                    0 <= i < old(self)@.len() && old(self)@[i].document_id == doc@.document_id),
                Err(StoreError::DuplicateNode) => final(self)@ == old(self)@ && !doc_wf(doc@),
            },
    {
        if let Some(_) = self.find_document(&doc.document_id) {
            return Err(StoreError::DuplicateDocument);
        }
        if !check_doc_wf(&doc) {
            return Err(StoreError::DuplicateNode);
        }
        self.docs.push(doc);
        proof {
            assert(self@ =~= old(self)@.push(self.docs@[old(self)@.len() as int]@));
        }
        Ok(())
    }
}

/// Executable check of `doc_wf`.
pub fn check_doc_wf(doc: &StoredDocument) -> (r: bool)
    ensures
        r == doc_wf(doc@),
{
    let n = doc.components.len();
    let mut i: usize = 0;
    while i < n
        invariant
            n == doc@.components.len(),
            i <= n,
            forall|p: int, q: int|
                0 <= p < i as int && 0 <= q < p ==> doc@.components[p].node_id
                    != doc@.components[q].node_id,
            forall|p: int| 0 <= p < i as int ==> doc@.components[p].node_id != doc@.root_id,
        decreases n - i,
    {
        if doc.components[i].node_id == doc.root_id {
            proof {
                assert(doc@.components[i as int].node_id == doc@.root_id);
            }
            return false;
        }
        let mut j: usize = 0;
        while j < i
            invariant
                n == doc@.components.len(),
                i < n,
                j <= i,
                forall|q: int| 0 <= q < j as int ==> doc@.components[i as int].node_id
                    != doc@.components[q].node_id,
            decreases i - j,
        {
            if doc.components[i].node_id == doc.components[j].node_id {
                proof {
                    assert(doc@.components[i as int].node_id == doc@.components[j as int].node_id);
                }
                return false;
            }
            j += 1;
        }
        i += 1;
    }
    true
}

} // verus!
