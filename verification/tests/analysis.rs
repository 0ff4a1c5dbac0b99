//! Service-level scenarios: ancestor and descendant retrieval,
//! duplicate ingestion, cross-document matches, relationship
//! filtering, cyclic documents, cache budget and status counts.

use trustify::matcher::ComponentReference;
use trustify::model::Relationship;
use trustify::service::{
    AnalysisConfig, AnalysisError, AnalysisService, Paginated, AnalysisStatus,
};
use trustify::store::{ComponentRow, RelationshipRow, SbomStore, StoredDocument};
use trustify::traversal::{Direction, QueryOptions};

fn comp(id: &str, name: &str, version: &str, purls: &[&str], cpes: &[&str]) -> ComponentRow {
    ComponentRow {
        node_id: id.to_string(),
        name: name.to_string(),
        version: version.to_string(),
        purls: purls.iter().map(|s| s.to_string()).collect(),
        cpes: cpes.iter().map(|s| s.to_string()).collect(),
    }
}

fn rel(source: &str, target: &str, kind: Relationship) -> RelationshipRow {
    RelationshipRow {
        source_id: source.to_string(),
        target_id: target.to_string(),
        kind,
    }
}

/// A small document: the root describes A, A contains B, and the
/// chain AA > BB > CC > DD hangs off an undescribed top node AA;
/// EE has no relationships at all.
fn simple_doc(document_id: &str) -> StoredDocument {
    StoredDocument {
        document_id: document_id.to_string(),
        root_id: "SPDXRef-DOCUMENT".to_string(),
        root_name: "simple".to_string(),
        components: vec![
            comp(
                "SPDXRef-A",
                "A",
                "1",
                &["pkg:rpm/redhat/A@0.0.0?arch=src"],
                &["cpe:/a:redhat:simple:1:*:el9:*"],
            ),
            comp("SPDXRef-B", "B", "1", &["pkg:rpm/redhat/B@0.0.0"], &[]),
            comp(
                "SPDXRef-AA",
                "AA",
                "0.0.0",
                &["pkg:rpm/redhat/AA@0.0.0?arch=src"],
                &[],
            ),
            comp("SPDXRef-BB", "BB", "0.0.0", &[], &[]),
            comp("SPDXRef-CC", "CC", "0.0.0", &[], &[]),
            comp("SPDXRef-DD", "DD", "0.0.0", &[], &[]),
            comp("SPDXRef-EE", "EE", "0.0.0", &[], &[]),
        ],
        relationships: vec![
            rel("SPDXRef-DOCUMENT", "SPDXRef-A", Relationship::Describes),
            rel("SPDXRef-A", "SPDXRef-B", Relationship::Contains),
            rel("SPDXRef-AA", "SPDXRef-BB", Relationship::Contains),
            rel("SPDXRef-BB", "SPDXRef-CC", Relationship::Contains),
            rel("SPDXRef-CC", "SPDXRef-DD", Relationship::Contains),
        ],
    }
}

/// A version of a quarkus-like document holding a shared leaf.
fn quarkus_doc(document_id: &str, version: &str) -> StoredDocument {
    StoredDocument {
        document_id: document_id.to_string(),
        root_id: "SPDXRef-DOCUMENT".to_string(),
        root_name: format!("quarkus-bom-{version}"),
        components: vec![
            comp(
                "SPDXRef-e24fec28-1001-499c-827f-2e2e5f2671b5",
                "quarkus-bom",
                version,
                &[],
                &["cpe:/a:redhat:quarkus:3.2:*:el8:*"],
            ),
            comp("SPDXRef-spy", "spymemcached", "2.12.1", &[], &[]),
            comp("SPDXRef-vertx", "quarkus-vertx-http", "3.2", &[], &[]),
        ],
        relationships: vec![
            rel(
                "SPDXRef-DOCUMENT",
                "SPDXRef-e24fec28-1001-499c-827f-2e2e5f2671b5",
                Relationship::Describes,
            ),
            rel(
                "SPDXRef-e24fec28-1001-499c-827f-2e2e5f2671b5",
                "SPDXRef-spy",
                Relationship::Contains,
            ),
            rel(
                "SPDXRef-e24fec28-1001-499c-827f-2e2e5f2671b5",
                "SPDXRef-vertx",
                Relationship::Contains,
            ),
        ],
    }
}

fn cyclic_doc(document_id: &str) -> StoredDocument {
    StoredDocument {
        document_id: document_id.to_string(),
        root_id: "SPDXRef-DOCUMENT".to_string(),
        root_name: "loop".to_string(),
        components: vec![
            comp("SPDXRef-A", "A", "1", &[], &[]),
            comp("SPDXRef-B", "B", "1", &[], &[]),
        ],
        relationships: vec![
            rel("SPDXRef-A", "SPDXRef-B", Relationship::Contains),
            rel("SPDXRef-B", "SPDXRef-A", Relationship::Contains),
        ],
    }
}

fn text(s: &str) -> ComponentReference {
    ComponentReference::Text(s.to_string())
}

#[test]
fn test_simple_analysis_service() {
    let mut store = SbomStore::new();
    store.ingest_document(simple_doc("simple")).unwrap();
    // duplicate ingestion of the same document is rejected, the store
    // keeps one copy
    assert!(store.ingest_document(simple_doc("simple")).is_err());

    let mut service = AnalysisService::new(AnalysisConfig::default());

    let result = service
        .retrieve(
            &store,
            &text("DD"),
            &QueryOptions::ancestors(),
            Paginated::default(),
        )
        .unwrap();
    let result = result.root_traces();
    assert_eq!(result.total, 1);
    assert_eq!(result.items.len(), 1);
    let traces = &result.items[0].traces;
    assert_eq!(traces.len(), 1);
    let last = traces[0].last().unwrap();
    assert_eq!(last.node_id, "SPDXRef-AA");
    assert_eq!(last.purls, vec!["pkg:rpm/redhat/AA@0.0.0?arch=src".to_string()]);

    // a component with no declared relationships resolves to the
    // document root through the implicit-root rule
    let result = service
        .retrieve(
            &store,
            &text("EE"),
            &QueryOptions::ancestors(),
            Paginated::default(),
        )
        .unwrap()
        .roots();
    assert_eq!(result.total, 1);
}

#[test]
fn test_simple_by_name_analysis_service() {
    let mut store = SbomStore::new();
    store.ingest_document(simple_doc("simple")).unwrap();
    let mut service = AnalysisService::new(AnalysisConfig::default());

    let result = service
        .retrieve(
            &store,
            &ComponentReference::Name("B".to_string()),
            &QueryOptions::ancestors(),
            Paginated::default(),
        )
        .unwrap()
        .root_traces();
    assert_eq!(result.total, 1);
    let traces = &result.items[0].traces;
    assert_eq!(traces.len(), 1);
    let ids: Vec<&str> = traces[0].iter().map(|n| n.node_id.as_str()).collect();
    assert_eq!(ids, vec!["SPDXRef-A", "SPDXRef-DOCUMENT"]);
    assert_eq!(traces[0][0].name, "A");
    assert_eq!(traces[0][0].version, "1");
    assert_eq!(traces[0][0].cpes, vec!["cpe:/a:redhat:simple:1:*:el9:*".to_string()]);
    assert_eq!(traces[0][0].purls, vec!["pkg:rpm/redhat/A@0.0.0?arch=src".to_string()]);
    assert_eq!(traces[0][1].name, "simple");
    assert_eq!(traces[0][1].version, "");
}

#[test]
fn simple_by_name_analysis_service_filter_rel() {
    let mut store = SbomStore::new();
    store.ingest_document(simple_doc("simple")).unwrap();
    let mut service = AnalysisService::new(AnalysisConfig::default());

    let options = QueryOptions {
        direction: Direction::Ancestors,
        relationships: vec![Relationship::Contains],
    };
    let result = service
        .retrieve(
            &store,
            &ComponentReference::Name("B".to_string()),
            &options,
            Paginated::default(),
        )
        .unwrap()
        .root_traces();
    assert_eq!(result.total, 1);
    let traces = &result.items[0].traces;
    assert_eq!(traces.len(), 1);
    // the describing edge is filtered out: the trace stops at A
    let ids: Vec<&str> = traces[0].iter().map(|n| n.node_id.as_str()).collect();
    assert_eq!(ids, vec!["SPDXRef-A"]);
}

#[test]
fn test_simple_by_purl_analysis_service() {
    let mut store = SbomStore::new();
    store.ingest_document(simple_doc("simple")).unwrap();
    let mut service = AnalysisService::new(AnalysisConfig::default());

    let result = service
        .retrieve(
            &store,
            &ComponentReference::Purl("pkg:rpm/redhat/B@0.0.0".to_string()),
            &QueryOptions::ancestors(),
            Paginated::default(),
        )
        .unwrap()
        .root_traces();
    assert_eq!(result.total, 1);
    let ids: Vec<&str> = result.items[0].traces[0]
        .iter()
        .map(|n| n.node_id.as_str())
        .collect();
    assert_eq!(ids, vec!["SPDXRef-A", "SPDXRef-DOCUMENT"]);
}

#[test]
fn test_quarkus_analysis_service() {
    let mut store = SbomStore::new();
    store
        .ingest_document(quarkus_doc("quarkus-1", "3.2.11.Final-redhat-00001"))
        .unwrap();
    store
        .ingest_document(quarkus_doc("quarkus-2", "3.2.12.Final-redhat-00002"))
        .unwrap();
    let mut service = AnalysisService::new(AnalysisConfig::default());

    let result = service
        .retrieve(
            &store,
            &text("spymemcached"),
            &QueryOptions::ancestors(),
            Paginated::default(),
        )
        .unwrap()
        .root_traces();
    // one match per ingested document version
    assert_eq!(result.total, 2);
    let trace = &result.items[1].traces[0];
    assert_eq!(trace[0].name, "quarkus-bom");
    assert_eq!(trace[0].version, "3.2.12.Final-redhat-00002");
    assert_eq!(trace[1].node_id, "SPDXRef-DOCUMENT");
    assert_eq!(trace[1].name, "quarkus-bom-3.2.12.Final-redhat-00002");
}

#[test]
fn test_status_service() {
    let mut store = SbomStore::new();
    store.ingest_document(simple_doc("simple")).unwrap();
    let mut service = AnalysisService::new(AnalysisConfig::default());
    let all = service.load_all_graphs(&store);
    assert_eq!(all.len(), 1);

    let status = service.status(&store);
    assert_eq!(
        status,
        AnalysisStatus { sbom_count: 1, graph_count: 1 }
    );

    service.clear_all_graphs();
    store
        .ingest_document(quarkus_doc("quarkus-1", "3.2.11.Final-redhat-00001"))
        .unwrap();
    store
        .ingest_document(quarkus_doc("quarkus-2", "3.2.12.Final-redhat-00002"))
        .unwrap();

    let status = service.status(&store);
    assert_eq!(status.sbom_count, 3);
    assert_eq!(status.graph_count, 0);
}

#[test]
fn test_cache_size_used() {
    let mut store = SbomStore::new();
    store.ingest_document(simple_doc("simple")).unwrap();

    let mut service = AnalysisService::new(AnalysisConfig::default());
    assert_eq!(service.cache_size_used(), 0u64);

    let all = service.load_all_graphs(&store);
    assert_eq!(all.len(), 1);
    let small_size = service.cache_size_used();
    assert!(small_size > 0);

    // a much larger document
    let mut components = Vec::new();
    for i in 0..100 {
        components.push(comp(&format!("SPDXRef-N{i}"), &format!("N{i}"), "1", &[], &[]));
    }
    let big = StoredDocument {
        document_id: "big".to_string(),
        root_id: "SPDXRef-DOCUMENT".to_string(),
        root_name: "big".to_string(),
        components,
        relationships: vec![],
    };
    store.ingest_document(big).unwrap();
    let all = service.load_all_graphs(&store);
    assert_eq!(all.len(), 2);
    let big_size = service.cache_size_used() - small_size;
    assert!(big_size > small_size);

    // a budget of twice the small size admits only the small document,
    // yet the load still returns both graphs
    let mut service = AnalysisService::new(AnalysisConfig {
        max_cache_size: small_size * 2,
    });
    let all = service.load_all_graphs(&store);
    assert_eq!(all.len(), 2);
    assert_eq!(service.cache_size_used(), small_size);
    assert_eq!(service.cache_len(), 1u64);
}

#[test]
fn test_simple_deps_service() {
    let mut store = SbomStore::new();
    store.ingest_document(simple_doc("simple")).unwrap();
    let mut service = AnalysisService::new(AnalysisConfig::default());

    let result = service
        .retrieve(
            &store,
            &text("AA"),
            &QueryOptions::descendants(),
            Paginated::default(),
        )
        .unwrap();
    assert_eq!(result.total, 1);
    let ids: Vec<&str> = result.items[0].traces[0]
        .iter()
        .map(|n| n.node_id.as_str())
        .collect();
    assert_eq!(ids, vec!["SPDXRef-BB", "SPDXRef-CC", "SPDXRef-DD"]);

    let result = service
        .retrieve(
            &store,
            &text("EE"),
            &QueryOptions::ancestors(),
            Paginated::default(),
        )
        .unwrap()
        .roots();
    assert_eq!(result.total, 1);
}

#[test]
fn test_simple_by_name_deps_service() {
    let mut store = SbomStore::new();
    store.ingest_document(simple_doc("simple")).unwrap();
    let mut service = AnalysisService::new(AnalysisConfig::default());

    let result = service
        .retrieve(
            &store,
            &ComponentReference::Name("A".to_string()),
            &QueryOptions::descendants(),
            Paginated::default(),
        )
        .unwrap();
    assert_eq!(result.items.len(), 1);
    assert_eq!(result.total, 1);
    assert_eq!(
        result.items[0].purls,
        vec!["pkg:rpm/redhat/A@0.0.0?arch=src".to_string()]
    );
    assert_eq!(
        result.items[0].cpes,
        vec!["cpe:/a:redhat:simple:1:*:el9:*".to_string()]
    );
}

#[test]
fn test_simple_by_purl_deps_service() {
    let mut store = SbomStore::new();
    store.ingest_document(simple_doc("simple")).unwrap();
    let mut service = AnalysisService::new(AnalysisConfig::default());

    let result = service
        .retrieve(
            &store,
            &ComponentReference::Purl("pkg:rpm/redhat/AA@0.0.0?arch=src".to_string()),
            &QueryOptions::descendants(),
            Paginated::default(),
        )
        .unwrap();
    assert_eq!(result.total, 1);
    assert_eq!(
        result.items[0].purls,
        vec!["pkg:rpm/redhat/AA@0.0.0?arch=src".to_string()]
    );
}

#[test]
fn test_quarkus_deps_service() {
    let mut store = SbomStore::new();
    store
        .ingest_document(quarkus_doc("quarkus-1", "3.2.11.Final-redhat-00001"))
        .unwrap();
    store
        .ingest_document(quarkus_doc("quarkus-2", "3.2.12.Final-redhat-00002"))
        .unwrap();
    let mut service = AnalysisService::new(AnalysisConfig::default());

    let result = service
        .retrieve(
            &store,
            &text("spymemcached"),
            &QueryOptions::descendants(),
            Paginated::default(),
        )
        .unwrap();
    assert_eq!(result.total, 2);
}

#[test]
fn test_circular_deps_spdx_service() {
    let mut store = SbomStore::new();
    store.ingest_document(cyclic_doc("loop")).unwrap();
    let mut service = AnalysisService::new(AnalysisConfig::default());

    let result = service
        .retrieve(
            &store,
            &ComponentReference::Name("A".to_string()),
            &QueryOptions::descendants(),
            Paginated::default(),
        )
        .unwrap();
    // cyclic documents are never loaded, so nothing matches
    assert_eq!(result.total, 0);
    assert_eq!(service.status(&store).graph_count, 0);
    assert_eq!(service.status(&store).sbom_count, 1);
}

#[test]
fn test_circular_deps_cyclonedx_service() {
    let mut store = SbomStore::new();
    let doc = StoredDocument {
        document_id: "circular".to_string(),
        root_id: "root".to_string(),
        root_name: "circular".to_string(),
        components: vec![
            comp("junit-bom", "junit-bom", "5.9.2", &[], &[]),
            comp("junit", "junit", "5.9.2", &[], &[]),
        ],
        relationships: vec![
            rel("junit-bom", "junit", Relationship::DependsOn),
            rel("junit", "junit-bom", Relationship::DependsOn),
        ],
    };
    store.ingest_document(doc).unwrap();
    let mut service = AnalysisService::new(AnalysisConfig::default());

    let result = service
        .retrieve(
            &store,
            &ComponentReference::Name("junit-bom".to_string()),
            &QueryOptions::descendants(),
            Paginated::default(),
        )
        .unwrap();
    assert_eq!(result.total, 0);
}

#[test]
fn test_retrieve_all_sbom_roots_by_name() {
    let mut store = SbomStore::new();
    store
        .ingest_document(quarkus_doc("quarkus-1", "3.2.11.Final-redhat-00001"))
        .unwrap();
    let mut service = AnalysisService::new(AnalysisConfig::default());

    let result = service
        .retrieve(
            &store,
            &text("quarkus-vertx-http"),
            &QueryOptions::ancestors(),
            Paginated::default(),
        )
        .unwrap()
        .roots();
    let sbom_id = result.items.last().unwrap().sbom_id.clone();

    let roots = service
        .retrieve_single(
            &store,
            &sbom_id,
            &ComponentReference::Name("quarkus-vertx-http".to_string()),
            &QueryOptions::ancestors(),
            Paginated::default(),
        )
        .unwrap()
        .root_traces();
    assert_eq!(roots.total, 1);
    let trace = &roots.items[0].traces[0];
    assert_eq!(trace.last().unwrap().name, "quarkus-bom-3.2.11.Final-redhat-00001");
}

#[test]
fn retrieve_rejects_malformed_purl() {
    let mut store = SbomStore::new();
    store.ingest_document(simple_doc("simple")).unwrap();
    let mut service = AnalysisService::new(AnalysisConfig::default());

    let err = service
        .retrieve(
            &store,
            &ComponentReference::Purl("not-a-purl".to_string()),
            &QueryOptions::ancestors(),
            Paginated::default(),
        )
        .unwrap_err();
    assert_eq!(err, AnalysisError::InvalidReference);
    // the screen happens before any loading
    assert_eq!(service.cache_len(), 0u64);
}

#[test]
fn retrieve_single_unknown_document() {
    let store = SbomStore::new();
    let mut service = AnalysisService::new(AnalysisConfig::default());
    let err = service
        .retrieve_single(
            &store,
            &"missing".to_string(),
            &ComponentReference::Name("A".to_string()),
            &QueryOptions::ancestors(),
            Paginated::default(),
        )
        .unwrap_err();
    assert_eq!(err, AnalysisError::DocumentNotFound);
}

#[test]
fn pagination_windows_matches() {
    let mut store = SbomStore::new();
    store
        .ingest_document(quarkus_doc("quarkus-1", "3.2.11.Final-redhat-00001"))
        .unwrap();
    store
        .ingest_document(quarkus_doc("quarkus-2", "3.2.12.Final-redhat-00002"))
        .unwrap();
    let mut service = AnalysisService::new(AnalysisConfig::default());

    let page = Paginated { offset: 0, limit: 1 };
    let result = service
        .retrieve(&store, &text("spymemcached"), &QueryOptions::ancestors(), page)
        .unwrap();
    assert_eq!(result.total, 2);
    assert_eq!(result.items.len(), 1);
    assert_eq!(result.items[0].sbom_id, "quarkus-1");

    let page = Paginated { offset: 1, limit: 10 };
    let result = service
        .retrieve(&store, &text("spymemcached"), &QueryOptions::ancestors(), page)
        .unwrap();
    assert_eq!(result.total, 2);
    assert_eq!(result.items.len(), 1);
    assert_eq!(result.items[0].sbom_id, "quarkus-2");

    let page = Paginated { offset: 5, limit: 10 };
    let result = service
        .retrieve(&store, &text("spymemcached"), &QueryOptions::ancestors(), page)
        .unwrap();
    assert_eq!(result.total, 2);
    assert_eq!(result.items.len(), 0);
}

/// The same small document shape with lowercase node identifiers
/// distinct from the display names.
fn cyclonedx_simple_doc(document_id: &str) -> StoredDocument {
    StoredDocument {
        document_id: document_id.to_string(),
        root_id: "cdx-root".to_string(),
        root_name: "simple".to_string(),
        components: vec![
            comp("a", "A", "1", &["pkg:rpm/redhat/A@0.0.0?arch=src"], &[]),
            comp("b", "B", "1", &[], &[]),
            comp("aa", "AA", "0.0.0", &["pkg:rpm/redhat/AA@0.0.0?arch=src"], &[]),
            comp("bb", "BB", "0.0.0", &[], &[]),
            comp("cc", "CC", "0.0.0", &[], &[]),
            comp("dd", "DD", "0.0.0", &[], &[]),
            comp("ee", "EE", "0.0.0", &[], &[]),
        ],
        relationships: vec![
            rel("cdx-root", "a", Relationship::Describes),
            rel("a", "b", Relationship::DependsOn),
            rel("aa", "bb", Relationship::DependsOn),
            rel("bb", "cc", Relationship::DependsOn),
            rel("cc", "dd", Relationship::DependsOn),
        ],
    }
}

#[test]
fn test_simple_analysis_cyclonedx_service() {
    let mut store = SbomStore::new();
    store.ingest_document(cyclonedx_simple_doc("cdx-simple")).unwrap();
    assert!(store.ingest_document(cyclonedx_simple_doc("cdx-simple")).is_err());
    let mut service = AnalysisService::new(AnalysisConfig::default());

    let result = service
        .retrieve(
            &store,
            &text("DD"),
            &QueryOptions::ancestors(),
            Paginated::default(),
        )
        .unwrap()
        .root_traces();
    assert_eq!(result.total, 1);
    let last = result.items[0].traces[0].last().unwrap();
    assert_eq!(last.node_id, "aa");
    assert_eq!(last.name, "AA");
    assert_eq!(last.purls, vec!["pkg:rpm/redhat/AA@0.0.0?arch=src".to_string()]);

    let result = service
        .retrieve(
            &store,
            &text("EE"),
            &QueryOptions::ancestors(),
            Paginated::default(),
        )
        .unwrap()
        .root_traces();
    assert_eq!(result.total, 1);
}

#[test]
fn test_simple_deps_cyclonedx_service() {
    let mut store = SbomStore::new();
    store.ingest_document(cyclonedx_simple_doc("cdx-simple")).unwrap();
    let mut service = AnalysisService::new(AnalysisConfig::default());

    let result = service
        .retrieve(
            &store,
            &text("AA"),
            &QueryOptions::descendants(),
            Paginated::default(),
        )
        .unwrap();
    assert_eq!(result.total, 1);

    let result = service
        .retrieve(
            &store,
            &text("EE"),
            &QueryOptions::ancestors(),
            Paginated::default(),
        )
        .unwrap()
        .roots();
    assert_eq!(result.total, 1);
}
