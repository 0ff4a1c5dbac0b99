//! Unit-level behaviour: building and its determinism, the size
//! estimator, cache admission and monotonicity, matching, reference
//! screening, the reductions' round trip, and the smaller helpers.

use trustify::advisory::{select_advisory, AdvisoryKey};
use trustify::builder::build_graph;
use trustify::cli::{device_auth_endpoint, token_endpoint, Command, Login, Logout, Run, Scan};
use trustify::matcher::{check_purl, contains_fold, matches_node, ComponentReference, Describes};
use trustify::model::Relationship;
use trustify::service::{AnalysisConfig, AnalysisService, Paginated};
use trustify::store::{ComponentRow, RelationshipRow, SbomStore, StoreError, StoredDocument};
use trustify::traversal::{Direction, QueryOptions};
use trustify::purl::{Purl as PurlValue, PurlCreator};
use trustify::web::build_url;

fn comp(id: &str, name: &str, version: &str, purls: &[&str], cpes: &[&str]) -> ComponentRow {
    ComponentRow {
        node_id: id.to_string(),
        name: name.to_string(),
        version: version.to_string(),
        purls: purls.iter().map(|s| s.to_string()).collect(),
        cpes: cpes.iter().map(|s| s.to_string()).collect(),
    }
}

fn rel(source: &str, target: &str, kind: Relationship) -> RelationshipRow {
    RelationshipRow {
        source_id: source.to_string(),
        target_id: target.to_string(),
        kind,
    }
}

fn small_doc() -> StoredDocument {
    StoredDocument {
        document_id: "doc".to_string(),
        root_id: "root".to_string(),
        root_name: "doc".to_string(),
        components: vec![
            comp("a", "Alpha", "1.0", &["pkg:rpm/redhat/alpha@1.0"], &[]),
            comp("b", "Beta", "2.0", &[], &["cpe:/a:acme:beta:2"]),
        ],
        relationships: vec![
            rel("root", "a", Relationship::Describes),
            rel("a", "b", Relationship::Contains),
        ],
    }
}

#[test]
fn build_produces_expected_graph() {
    let doc = small_doc();
    let g = build_graph(&doc).unwrap();
    assert_eq!(g.node_count(), 3);
    assert_eq!(g.edge_count(), 2);
    assert_eq!(g.document_id(), "doc");
    assert_eq!(g.node_at(0).node_id, "root");
    assert_eq!(g.node_at(0).name, "doc");
    assert_eq!(g.node_at(0).version, "");
    assert_eq!(g.node_at(1).node_id, "a");
    assert_eq!(g.node_at(2).node_id, "b");
}

#[test]
fn build_skips_unresolvable_relationship_rows() {
    let mut doc = small_doc();
    doc.relationships.push(rel("a", "ghost", Relationship::Contains));
    let g = build_graph(&doc).unwrap();
    assert_eq!(g.edge_count(), 2);
}

#[test]
fn build_rejects_cycles() {
    let doc = StoredDocument {
        document_id: "doc".to_string(),
        root_id: "root".to_string(),
        root_name: "doc".to_string(),
        components: vec![
            comp("a", "A", "1", &[], &[]),
            comp("b", "B", "1", &[], &[]),
            comp("c", "C", "1", &[], &[]),
        ],
        relationships: vec![
            rel("a", "b", Relationship::Contains),
            rel("b", "c", Relationship::Contains),
            rel("c", "a", Relationship::Contains),
        ],
    };
    assert!(build_graph(&doc).is_err());
}

#[test]
fn build_accepts_self_free_diamond() {
    let doc = StoredDocument {
        document_id: "doc".to_string(),
        root_id: "root".to_string(),
        root_name: "doc".to_string(),
        components: vec![
            comp("a", "A", "1", &[], &[]),
            comp("b", "B", "1", &[], &[]),
            comp("c", "C", "1", &[], &[]),
        ],
        relationships: vec![
            rel("a", "b", Relationship::Contains),
            rel("a", "c", Relationship::Contains),
            rel("b", "c", Relationship::DependsOn),
        ],
    };
    assert!(build_graph(&doc).is_ok());
}

#[test]
fn build_is_idempotent() {
    let doc = small_doc();
    let g1 = build_graph(&doc).unwrap();
    let g2 = build_graph(&doc).unwrap();
    assert_eq!(g1.node_count(), g2.node_count());
    assert_eq!(g1.edge_count(), g2.edge_count());
    assert_eq!(g1.estimate_bytes(), g2.estimate_bytes());
    for i in 0..g1.node_count() {
        assert_eq!(g1.node_at(i), g2.node_at(i));
    }
    for i in 0..g1.edge_count() {
        assert_eq!(g1.edge_at(i), g2.edge_at(i));
    }
}

#[test]
fn estimate_follows_record_formula() {
    // 64 base + 192 per node + 48 per edge
    let g = build_graph(&small_doc()).unwrap();
    assert_eq!(g.estimate_bytes(), 64 + 192 * 3 + 48 * 2);
}

#[test]
fn empty_document_builds_root_only_graph() {
    let doc = StoredDocument {
        document_id: "empty".to_string(),
        root_id: "root".to_string(),
        root_name: "empty".to_string(),
        components: vec![],
        relationships: vec![],
    };
    let g = build_graph(&doc).unwrap();
    assert_eq!(g.node_count(), 1);
    assert_eq!(g.edge_count(), 0);
}

#[test]
fn cache_size_only_grows_until_cleared() {
    let mut store = SbomStore::new();
    store.ingest_document(small_doc()).unwrap();
    let mut service = AnalysisService::new(AnalysisConfig::default());

    let mut last = service.cache_size_used();
    service.load_all_graphs(&store);
    let after_one = service.cache_size_used();
    assert!(after_one >= last);
    last = after_one;

    let mut doc2 = small_doc();
    doc2.document_id = "doc2".to_string();
    store.ingest_document(doc2).unwrap();
    service.load_all_graphs(&store);
    assert!(service.cache_size_used() >= last);

    // re-loading the same store never changes the accounting
    let used = service.cache_size_used();
    service.load_all_graphs(&store);
    assert_eq!(service.cache_size_used(), used);

    service.clear_all_graphs();
    assert_eq!(service.cache_size_used(), 0);
    assert_eq!(service.cache_len(), 0);
}

#[test]
fn store_rejects_duplicate_documents_and_nodes() {
    let mut store = SbomStore::new();
    store.ingest_document(small_doc()).unwrap();
    assert_eq!(
        store.ingest_document(small_doc()).unwrap_err(),
        StoreError::DuplicateDocument
    );

    let mut bad = small_doc();
    bad.document_id = "doc2".to_string();
    bad.components.push(comp("a", "Alpha again", "9", &[], &[]));
    assert_eq!(
        store.ingest_document(bad).unwrap_err(),
        StoreError::DuplicateNode
    );
    assert_eq!(store.len(), 1);
}

#[test]
fn free_text_matching_folds_case() {
    assert!(contains_fold("Quarkus-Bom", "quarkus"));
    assert!(contains_fold("spymemcached", "MEMCACHE"));
    assert!(!contains_fold("spymemcached", "quarkus"));
    assert!(contains_fold("anything", ""));
    assert!(!contains_fold("", "x"));

    let g = build_graph(&small_doc()).unwrap();
    let node = g.node_at(1);
    assert!(matches_node(node, &ComponentReference::Text("alp".to_string())));
    assert!(matches_node(node, &ComponentReference::Text("ALPHA".to_string())));
    assert!(matches_node(
        node,
        &ComponentReference::Text("pkg:rpm/redhat/alpha".to_string())
    ));
    assert!(!matches_node(node, &ComponentReference::Text("beta".to_string())));
    assert!(matches_node(node, &ComponentReference::Name("Alpha".to_string())));
    assert!(!matches_node(node, &ComponentReference::Name("alpha".to_string())));
    let b = g.node_at(2);
    assert!(matches_node(
        b,
        &ComponentReference::Cpe("cpe:/a:acme:beta:2".to_string())
    ));
    assert!(matches_node(b, &ComponentReference::Text("2.0".to_string())));
}

#[test]
fn purl_screening() {
    assert!(check_purl("pkg:rpm/redhat/A@0.0.0?arch=src"));
    assert!(check_purl("pkg:maven/org.acme/thing@1"));
    assert!(!check_purl("pkg:rpm"));
    assert!(!check_purl("not-a-purl"));
    assert!(!check_purl("pkg:/name"));
    assert!(!check_purl("pkg:rpm/"));
    assert!(!check_purl(""));
}

#[test]
fn describes_values_become_references() {
    let r = Describes::Purl("pkg:rpm/redhat/A@0.0.0".to_string()).to_reference();
    assert!(matches!(r, ComponentReference::Purl(p) if p == "pkg:rpm/redhat/A@0.0.0"));
    let r = Describes::Cpe("cpe:/a:acme:beta:2".to_string()).to_reference();
    assert!(matches!(r, ComponentReference::Cpe(c) if c == "cpe:/a:acme:beta:2"));
}

#[test]
fn filtering_never_adds_traces() {
    let mut store = SbomStore::new();
    store.ingest_document(small_doc()).unwrap();
    let mut service = AnalysisService::new(AnalysisConfig::default());

    let unfiltered = service
        .retrieve(
            &store,
            &ComponentReference::Name("Beta".to_string()),
            &QueryOptions::ancestors(),
            Paginated::default(),
        )
        .unwrap();
    let filtered = service
        .retrieve(
            &store,
            &ComponentReference::Name("Beta".to_string()),
            &QueryOptions {
                direction: Direction::Ancestors,
                relationships: vec![Relationship::Contains],
            },
            Paginated::default(),
        )
        .unwrap();
    assert_eq!(unfiltered.total, filtered.total);
    assert!(filtered.items[0].traces.len() <= unfiltered.items[0].traces.len());
    // and here the filtered trace is a strict prefix of the unfiltered one
    assert_eq!(unfiltered.items[0].traces[0].len(), 2);
    assert_eq!(filtered.items[0].traces[0].len(), 1);
}

#[test]
fn roots_of_root_traces_round_trip() {
    let mut store = SbomStore::new();
    store.ingest_document(small_doc()).unwrap();
    let mut service = AnalysisService::new(AnalysisConfig::default());

    let result = service
        .retrieve(
            &store,
            &ComponentReference::Name("Beta".to_string()),
            &QueryOptions::ancestors(),
            Paginated::default(),
        )
        .unwrap();

    let roots_direct = result.roots();
    let roots_via_traces = result.root_traces().roots();
    assert_eq!(roots_direct, roots_via_traces);

    // applying the reduction twice changes nothing
    assert_eq!(roots_direct.roots(), roots_direct);

    // and it holds exactly the deduplicated terminal nodes
    assert_eq!(roots_direct.items[0].traces.len(), 1);
    assert_eq!(roots_direct.items[0].traces[0].len(), 1);
    assert_eq!(roots_direct.items[0].traces[0][0].node_id, "root");
}

#[test]
fn advisory_selection_by_digest() {
    let digests = vec![
        "12ab".to_string(),
        "34cd".to_string(),
        "56ef".to_string(),
    ];
    let key = AdvisoryKey::Sha256("34cd".to_string());
    assert_eq!(select_advisory(&digests, &key), Some(1));
    let missing = AdvisoryKey::Sha256("9999".to_string());
    assert_eq!(select_advisory(&digests, &missing), None);
    assert_eq!(missing.digest(), "9999");
}

#[test]
fn login_settings_drive_discovery() {
    let login = Login {
        oidc_client_id: "cli".to_string(),
        oidc_server_url: None,
        trustify_server_url: "http://localhost:8080".to_string(),
    };
    assert!(login.needs_discovery());
    let login = Login {
        oidc_server_url: Some("http://sso.local".to_string()),
        ..login
    };
    assert!(!login.needs_discovery());

    assert_eq!(
        device_auth_endpoint("http://sso.local"),
        "http://sso.local/protocol/openid-connect/auth/device"
    );
    assert_eq!(
        token_endpoint("http://sso.local"),
        "http://sso.local/protocol/openid-connect/token"
    );

    let run = Run {
        command: Command::Login(Login {
            oidc_client_id: "cli".to_string(),
            oidc_server_url: None,
            trustify_server_url: "http://localhost:8080".to_string(),
        }),
    };
    assert!(matches!(run.command, Command::Login(_)));
    assert!(matches!(
        Command::Logout(Logout),
        Command::Logout(Logout)
    ));
    let scan = Scan { input: "sbom.json".to_string(), output: None };
    assert_eq!(scan.input, "sbom.json");
}

#[test]
fn url_assembly_validates() {
    let u = build_url("http", "localhost:8080", "/openapi.json");
    assert!(u.is_some());
    assert_eq!(u.unwrap().as_str(), "http://localhost:8080/openapi.json");
    // an invalid scheme never parses
    assert!(build_url("ht tp", "localhost", "/").is_none());
}

fn purl(ty: &str, ns: &str, name: &str, version: &str, q: &str) -> PurlValue {
    PurlValue {
        ty: ty.to_string(),
        namespace: ns.to_string(),
        name: name.to_string(),
        version: version.to_string(),
        qualifiers: q.to_string(),
    }
}

#[test]
fn purl_creator_deduplicates_rows() {
    let mut creator = PurlCreator::new();
    creator.add(purl("rpm", "redhat", "alpha", "1.0", ""));
    creator.add(purl("rpm", "redhat", "alpha", "1.0", ""));
    creator.add(purl("rpm", "redhat", "alpha", "1.0", "arch=src"));
    creator.add(purl("rpm", "redhat", "alpha", "2.0", ""));
    creator.add(purl("rpm", "redhat", "beta", "1.0", ""));

    let batches = creator.create();
    // four distinct purls collected, the repeated one kept once
    assert_eq!(batches.qualified.len(), 4);
    // two distinct packages
    assert_eq!(batches.packages.len(), 2);
    assert_eq!(batches.packages[0].name, "alpha");
    assert_eq!(batches.packages[1].name, "beta");
    // three distinct package versions
    assert_eq!(batches.versions.len(), 3);
    assert_eq!(batches.versions[0].version, "1.0");
    assert_eq!(batches.versions[1].version, "2.0");
    assert_eq!(batches.versions[2].name, "beta");
}

#[test]
fn index_urls_lists_the_landing_links() {
    let urls = trustify::web::index_urls("http", "localhost:8080");
    assert_eq!(urls.len(), 3);
    assert_eq!(urls[0].as_str(), "http://localhost:8080/");
    assert_eq!(urls[1].as_str(), "http://localhost:8080/openapi.json");
    assert_eq!(urls[2].as_str(), "http://localhost:8080/swagger-ui/");
    assert!(trustify::web::index_urls("ht tp", "x").is_empty());
}
