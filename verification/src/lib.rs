//! Dependency graph cache and traversal engine for SBOM documents.
//!
//! The library turns relational component and relationship rows into
//! in-memory directed graphs, caches them under a hard memory budget,
//! rejects cyclic documents, and answers ancestor/descendant queries
//! with relationship-kind filtering and pagination.

pub mod model;
pub mod store;
pub mod builder;
pub mod matcher;
pub mod traversal;
pub mod traces;
pub mod cache;
pub mod service;
pub mod advisory;
pub mod cli;
pub mod purl;
pub mod web;
