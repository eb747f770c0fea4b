//! Verified core of the SoRLa provider family: shared provider contracts,
//! deterministic pack manifests and catalogs, the canonical FoundationDB
//! keyspace, the in-memory FoundationDB provider and the deterministic mock
//! providers.
use vstd::prelude::*;

pub mod semver_gate;
pub mod text;
pub mod types;
pub mod keyspace;
pub mod sort;
pub mod pack;
pub mod catalog;
pub mod store;
pub mod tuple_key;
pub mod fdb_keys;
pub mod traits;
pub mod fdb_paths;
pub mod fdb_provider;
pub mod fdb_txn;
pub mod fdb_cluster;
pub mod fnv;
pub mod json_text;
pub mod sharepoint;
pub mod rag;
pub mod provider_map;
pub mod manifest;
pub mod release;
pub mod pack_index;
pub mod fdb_laws;
pub mod metric_rules;
pub mod ontology_smoke;

verus! {
}
