//! The provider catalog: discovery entries generated from pack manifests,
//! sorted by provider ID.
use vstd::prelude::*;

use crate::pack::ProviderPackManifest;
use crate::sort::{is_permutation, lemma_permutation_onto, sorted_order, SortKey, StrKey};
use crate::text::{chars_lt, owned, string_lt};
use crate::tuple_key::opt_view;
use crate::types::{ProviderCapability, ProviderOntologyCapabilities, ProviderStatus};

verus! {

/// Catalog entry generated from a provider pack manifest.
#[derive(Debug, Clone, PartialEq, Eq)]
pub struct ProviderCatalogEntry {
    pub provider_id: String,
    pub provider_version: String,
    pub provider_kind: String,
    pub capabilities: Vec<ProviderCapability>,
    pub tags: Vec<String>,
    pub is_mock: bool,
    pub status: ProviderStatus,
    pub supported_provider_contract_version: String,
    pub supported_sorla_ir: String,
    pub supported_sorla_ir_range: String,
    pub config_schema_path: String,
    pub artifact_uri: Option<String>,
    pub oci_reference: Option<String>,
    pub ontology: Option<ProviderCatalogOntology>,
}

/// Ontology metadata projected from provider pack manifests for discovery.
#[derive(Debug, Clone, PartialEq, Eq)]
pub struct ProviderCatalogOntology {
    pub capabilities: Vec<ProviderCapability>,
    pub max_traversal_depth: Option<u8>,
    pub supports_generic_entity_refs: bool,
    pub supported_ontology_schema: String,
    pub supported_ontology_schema_range: String,
    pub supported_retrieval_binding_schema: Option<String>,
    pub supported_external_mapping_schema: Option<String>,
}

/// Deterministic catalog output for SoRLa wizard discovery.
#[derive(Debug, Clone, PartialEq, Eq)]
pub struct ProviderCatalog {
    pub catalog_format_version: String,
    pub generated_from: String,
    pub entries: Vec<ProviderCatalogEntry>,
}

/// Paths written for a generated catalog, each as the text of the path.
#[derive(Debug, Clone, PartialEq, Eq)]
pub struct GeneratedCatalogLayout {
    pub output_dir: String,
    pub catalog_path: String,
}

/// The marker tag of a manifest: `mock` or `real`.
pub open spec fn marker_tag(is_mock: bool) -> Seq<char> {
    if is_mock {
        "mock"@
    } else {
        "real"@
    }
}

/// The tags of a manifest: its kind and its marker, sorted, without repeats.
pub open spec fn tags_text(kind: Seq<char>, is_mock: bool) -> Seq<Seq<char>> {
    let m = marker_tag(is_mock);
    if kind == m {
        seq![m]
    } else if chars_lt(kind, m) {
        seq![kind, m]
    } else {
        seq![m, kind]
    }
}

/// The text of each tag.
pub open spec fn tag_texts(tags: Seq<String>) -> Seq<Seq<char>> {
    tags.map_values(|t: String| t@)
}

/// The ontology capabilities advertised by the flags, in catalog order.
pub open spec fn ontology_capability_list(o: ProviderOntologyCapabilities) -> Seq<
    ProviderCapability,
> {
    (if o.supports_entity_read {
        seq![ProviderCapability::EntityRead]
    } else {
        seq![]
    }) + (if o.supports_entity_search {
        seq![ProviderCapability::EntitySearch]
    } else {
        seq![]
    }) + (if o.supports_relationship_query {
        seq![ProviderCapability::RelationshipQuery]
    } else {
        seq![]
    }) + (if o.supports_path_find {
        seq![ProviderCapability::PathFind]
    } else {
        seq![]
    }) + (if o.supports_entity_linking {
        seq![ProviderCapability::EntityLink]
    } else {
        seq![]
    }) + (if o.supports_ontology_scoped_evidence {
        seq![ProviderCapability::OntologyScopedEvidenceQuery]
    } else {
        seq![]
    }) + (if o.supports_policy_context {
        seq![ProviderCapability::PolicyContextResolve]
    } else {
        seq![]
    })
}

/// `out` is the catalog ontology section projected from `o`.
pub open spec fn projects_ontology(out: ProviderCatalogOntology, o: ProviderOntologyCapabilities) -> bool {
    &&& out.capabilities@ == ontology_capability_list(o)
    &&& out.max_traversal_depth == o.max_traversal_depth
    &&& out.supports_generic_entity_refs
    &&& out.supported_ontology_schema == o.compatibility.supported_ontology_schema
    &&& out.supported_ontology_schema_range == o.compatibility.supported_ontology_schema_range
    &&& out.supported_retrieval_binding_schema
        == o.compatibility.supported_retrieval_binding_schema
    &&& out.supported_external_mapping_schema == o.compatibility.supported_external_mapping_schema
}

/// `entry` is the catalog entry generated from `manifest`.
pub open spec fn entry_for_manifest(entry: ProviderCatalogEntry, manifest: ProviderPackManifest) -> bool {
    &&& entry.provider_id == manifest.provider_id
    &&& entry.provider_version == manifest.provider_version
    &&& entry.provider_kind == manifest.provider_kind
    &&& entry.capabilities@ == manifest.capabilities@
    &&& tag_texts(entry.tags@) == tags_text(manifest.provider_kind@, manifest.is_mock)
    &&& entry.is_mock == manifest.is_mock
    &&& entry.status == manifest.status
    &&& entry.supported_provider_contract_version == manifest.supported_provider_contract_version
    &&& entry.supported_sorla_ir == manifest.supported_sorla_ir
    &&& entry.supported_sorla_ir_range == manifest.supported_sorla_ir_range
    &&& entry.config_schema_path == manifest.config_schema.path
    &&& entry.artifact_uri == (if manifest.artifact_references@.len() > 0 {
        Some(manifest.artifact_references@[0].uri)
    } else {
        None
    })
    &&& entry.oci_reference == manifest.oci_reference
    &&& match (entry.ontology, manifest.ontology_capabilities) {
        (None, None) => true,
        (Some(e), Some(o)) => projects_ontology(e, o),
        _ => false,
    }
}

fn tags_for_manifest(manifest: &ProviderPackManifest) -> (tags: Vec<String>)
    ensures
        tag_texts(tags@) == tags_text(manifest.provider_kind@, manifest.is_mock),
{
    let marker = if manifest.is_mock {
        owned("mock")
    } else {
        owned("real")
    };
    let kind = manifest.provider_kind.clone();
    let mut tags: Vec<String> = Vec::new();
    if kind == marker {
        tags.push(marker);
    } else if string_lt(&kind, &marker) {
        tags.push(kind);
        tags.push(marker);
    } else {
        tags.push(marker);
        tags.push(kind);
    }
    assert(tag_texts(tags@) =~= tags_text(manifest.provider_kind@, manifest.is_mock));
    tags
}

fn ontology_for_manifest(manifest: &ProviderPackManifest) -> (out: Option<ProviderCatalogOntology>)
    ensures
        match (out, manifest.ontology_capabilities) {
            (None, None) => true,
            (Some(e), Some(o)) => projects_ontology(e, o),
            _ => false,
        },
{
    let ontology = match &manifest.ontology_capabilities {
        Some(o) => o,
        None => {
            return None;
        },
    };
    let mut capabilities: Vec<ProviderCapability> = Vec::new();
    if ontology.supports_entity_read {
        capabilities.push(ProviderCapability::EntityRead);
    }
    if ontology.supports_entity_search {
        capabilities.push(ProviderCapability::EntitySearch);
    }
    if ontology.supports_relationship_query {
        capabilities.push(ProviderCapability::RelationshipQuery);
    }
    if ontology.supports_path_find {
        capabilities.push(ProviderCapability::PathFind);
    }
    if ontology.supports_entity_linking {
        capabilities.push(ProviderCapability::EntityLink);
    }
    if ontology.supports_ontology_scoped_evidence {
        capabilities.push(ProviderCapability::OntologyScopedEvidenceQuery);
    }
    if ontology.supports_policy_context {
        capabilities.push(ProviderCapability::PolicyContextResolve);
    }
    assert(capabilities@ =~= ontology_capability_list(*ontology));
    Some(
        ProviderCatalogOntology {
            capabilities,
            max_traversal_depth: ontology.max_traversal_depth,
            supports_generic_entity_refs: true,
            supported_ontology_schema: ontology.compatibility.supported_ontology_schema.clone(),
            supported_ontology_schema_range: ontology.compatibility.supported_ontology_schema_range.clone(),
            supported_retrieval_binding_schema: ontology.compatibility.supported_retrieval_binding_schema.clone(),
            supported_external_mapping_schema: ontology.compatibility.supported_external_mapping_schema.clone(),
        },
    )
}

/// The catalog entry generated from one manifest.
pub fn entry_from_manifest(manifest: &ProviderPackManifest) -> (entry: ProviderCatalogEntry)
    ensures
        entry_for_manifest(entry, *manifest),
{
    let capabilities = manifest.capabilities.clone();
    proof {
        assert(capabilities@ =~= manifest.capabilities@);
    }
    let artifact_uri = if manifest.artifact_references.len() > 0 {
        Some(manifest.artifact_references[0].uri.clone())
    } else {
        None
    };
    ProviderCatalogEntry {
        provider_id: manifest.provider_id.clone(),
        provider_version: manifest.provider_version.clone(),
        provider_kind: manifest.provider_kind.clone(),
        capabilities,
        tags: tags_for_manifest(manifest),
        is_mock: manifest.is_mock,
        status: manifest.status,
        supported_provider_contract_version: manifest.supported_provider_contract_version.clone(),
        supported_sorla_ir: manifest.supported_sorla_ir.clone(),
        supported_sorla_ir_range: manifest.supported_sorla_ir_range.clone(),
        config_schema_path: manifest.config_schema.path.clone(),
        artifact_uri,
        oci_reference: manifest.oci_reference.clone(),
        ontology: ontology_for_manifest(manifest),
    }
}

impl ProviderCatalog {
    /// One entry per manifest, ordered by provider ID.
    pub fn from_manifests(manifests: &[ProviderPackManifest]) -> (catalog: Self)
        ensures
            catalog.catalog_format_version@ == "sorla-provider-catalog/v1"@,
            catalog.generated_from@ == "generated-pack-manifests"@,
            catalog.entries@.len() == manifests@.len(),
            exists|order: Seq<usize>|
                #[trigger] is_permutation(order, manifests@.len()) && (forall|i: int|
                    0 <= i < manifests@.len() ==> entry_for_manifest(
                        #[trigger] catalog.entries@[i],
                        manifests@[order[i] as int],
                    )) && forall|i: int, j: int|
                    0 <= i < j < manifests@.len() && manifests@[#[trigger] order[i] as int].provider_id@
                        == manifests@[#[trigger] order[j] as int].provider_id@ ==> order[i] < order[j],
            forall|i: int, j: int|
                0 <= i < j < catalog.entries@.len() ==> !chars_lt(
                    (#[trigger] catalog.entries@[j]).provider_id@,
                    (#[trigger] catalog.entries@[i]).provider_id@,
                ),
            catalog_from(catalog, manifests@),
    {
        let n = manifests.len();
        let mut keys: Vec<StrKey> = Vec::new();
        for i in 0..n
            invariant
                n == manifests@.len(),
                keys@.len() == i,
                forall|j: int| 0 <= j < i ==> (#[trigger] keys@[j]).text == manifests@[j].provider_id,
        {
            keys.push(StrKey { text: manifests[i].provider_id.clone() });
        }
        let ghost ks = keys@;
        let order = sorted_order(keys);
        let mut entries: Vec<ProviderCatalogEntry> = Vec::new();
        for t in 0..n
            invariant
                n == manifests@.len(),
                is_permutation(order@, n as nat),
                crate::sort::orders_keys(ks, order@),
                crate::sort::keeps_ties(ks, order@),
                ks.len() == n,
                forall|j: int| 0 <= j < n ==> (#[trigger] ks[j]).text == manifests@[j].provider_id,
                entries@.len() == t,
                forall|j: int|
                    0 <= j < t ==> entry_for_manifest(
                        #[trigger] entries@[j],
                        manifests@[order@[j] as int],
                    ),
        {
            entries.push(entry_from_manifest(&manifests[order[t]]));
        }
        proof {
            assert forall|i: int, j: int| 0 <= i < j < entries@.len() implies !chars_lt(
                (#[trigger] entries@[j]).provider_id@,
                (#[trigger] entries@[i]).provider_id@,
            ) by {
                assert(order@[i] < n && order@[j] < n);
                assert(!ks[order@[j] as int].key_lt(ks[order@[i] as int]));
            }
            assert(is_permutation(order@, manifests@.len()));
            assert forall|i: int, j: int|
                0 <= i < j < manifests@.len() && manifests@[#[trigger] order@[i] as int].provider_id@
                    == manifests@[#[trigger] order@[j] as int].provider_id@ implies order@[i] < order@[j] by {
                crate::text::lemma_chars_lt_irreflexive(manifests@[order@[i] as int].provider_id@);
                assert(!ks[order@[i] as int].key_lt(ks[order@[j] as int]));
            }
            assert(entries_from(entries@, manifests@, order@));
        }
        ProviderCatalog {
            catalog_format_version: owned("sorla-provider-catalog/v1"),
            generated_from: owned("generated-pack-manifests"),
            entries,
        }
    }
}

/// `entries` are the catalog entries `from_manifests` generates from `ms`,
/// the `i`-th from `ms[order[i]]`, in provider-ID order.
pub open spec fn entries_from(entries: Seq<ProviderCatalogEntry>, ms: Seq<ProviderPackManifest>, order: Seq<usize>) -> bool {
    &&& entries.len() == ms.len()
    &&& is_permutation(order, ms.len())
    &&& forall|i: int| 0 <= i < ms.len() ==> entry_for_manifest(#[trigger] entries[i], ms[order[i] as int])
    &&& forall|i: int, j: int| 0 <= i < j < entries.len() ==> !chars_lt(
        (#[trigger] entries[j]).provider_id@,
        (#[trigger] entries[i]).provider_id@,
    )
}

/// The provider IDs of `ms` are pairwise distinct.
pub open spec fn distinct_provider_ids(ms: Seq<ProviderPackManifest>) -> bool {
    forall|i: int, j: int| 0 <= i < ms.len() && 0 <= j < ms.len() && i != j ==> (#[trigger] ms[i]).provider_id@
        != (#[trigger] ms[j]).provider_id@
}

proof fn lemma_same_prefix_extends(
    ms: Seq<ProviderPackManifest>,
    p: Seq<usize>,
    ms2: Seq<ProviderPackManifest>,
    e1: Seq<ProviderCatalogEntry>,
    o1: Seq<usize>,
    e2: Seq<ProviderCatalogEntry>,
    o2: Seq<usize>,
    i: int,
)
    requires
        is_permutation(p, ms.len()),
        ms2.len() == ms.len(),
        forall|k: int| 0 <= k < ms.len() ==> ms2[k] == ms[#[trigger] p[k] as int],
        distinct_provider_ids(ms),
        entries_from(e1, ms, o1),
        entries_from(e2, ms2, o2),
        0 <= i <= ms.len(),
        forall|k: int| 0 <= k < i ==> ms[#[trigger] o1[k] as int] == ms2[o2[k] as int],
    ensures
        forall|k: int| 0 <= k < ms.len() ==> ms[#[trigger] o1[k] as int] == ms2[o2[k] as int],
    decreases ms.len() - i,
{
    let n = ms.len();
    if i < n {
        let a = ms[o1[i] as int];
        let b = ms2[o2[i] as int];
        // where a sits among the entries of ms2
        lemma_permutation_onto(p, n, o1[i] as int);
        let t = choose|t: int| 0 <= t < n && p[t] as int == o1[i] as int;
        lemma_permutation_onto(o2, n, t);
        let j = choose|j: int| 0 <= j < n && o2[j] as int == t;
        assert(ms2[o2[j] as int] == a);
        // where b sits among the entries of ms
        let mb = p[o2[i] as int] as int;
        assert(b == ms[mb]);
        lemma_permutation_onto(o1, n, mb);
        let k = choose|k: int| 0 <= k < n && o1[k] as int == mb;
        assert(ms[o1[k] as int] == b);
        assert(entry_for_manifest(e1[i], a));
        assert(entry_for_manifest(e2[i], b));
        if a != b {
            if j < i {
                assert(ms[o1[j] as int] == ms2[o2[j] as int]);
                assert(o1[j] != o1[i]);
                assert(ms[o1[j] as int].provider_id@ != ms[o1[i] as int].provider_id@);
            }
            if k < i {
                assert(ms[o1[k] as int] == ms2[o2[k] as int]);
                assert(o2[k] != o2[i]);
                assert(p[o2[k] as int] != p[o2[i] as int]);
                assert(ms[p[o2[k] as int] as int].provider_id@ != ms[p[o2[i] as int] as int].provider_id@);
            }
            assert(j != i && k != i);
            // a and b are distinct manifests of ms, so their IDs differ
            assert(mb != o1[i] as int);
            assert(a.provider_id@ != b.provider_id@);
            assert(entry_for_manifest(e2[j], a));
            assert(entry_for_manifest(e1[k], b));
            assert(!chars_lt(e2[j].provider_id@, e2[i].provider_id@));
            assert(!chars_lt(e1[k].provider_id@, e1[i].provider_id@));
            crate::text::lemma_chars_lt_total(a.provider_id@, b.provider_id@);
        }
        lemma_same_prefix_extends(ms, p, ms2, e1, o1, e2, o2, i + 1);
    }
}

/// `catalog` is what `from_manifests` generates from `ms`: the fixed format
/// and source markers, and one entry per manifest in provider-ID order.
pub open spec fn catalog_from(catalog: ProviderCatalog, ms: Seq<ProviderPackManifest>) -> bool {
    &&& catalog.catalog_format_version@ == "sorla-provider-catalog/v1"@
    &&& catalog.generated_from@ == "generated-pack-manifests"@
    &&& exists|order: Seq<usize>| #[trigger] entries_from(catalog.entries@, ms, order)
}

/// Two ontology sections are equal as `==` compares them: field by field,
/// strings by their text.
pub open spec fn same_ontology(a: ProviderCatalogOntology, b: ProviderCatalogOntology) -> bool {
    &&& a.capabilities@ == b.capabilities@
    &&& a.max_traversal_depth == b.max_traversal_depth
    &&& a.supports_generic_entity_refs == b.supports_generic_entity_refs
    &&& a.supported_ontology_schema@ == b.supported_ontology_schema@
    &&& a.supported_ontology_schema_range@ == b.supported_ontology_schema_range@
    &&& opt_view(a.supported_retrieval_binding_schema) == opt_view(b.supported_retrieval_binding_schema)
    &&& opt_view(a.supported_external_mapping_schema) == opt_view(b.supported_external_mapping_schema)
}

/// Two catalog entries are equal as `==` compares them: field by field,
/// strings by their text.
pub open spec fn same_entry(a: ProviderCatalogEntry, b: ProviderCatalogEntry) -> bool {
    &&& a.provider_id@ == b.provider_id@
    &&& a.provider_version@ == b.provider_version@
    &&& a.provider_kind@ == b.provider_kind@
    &&& a.capabilities@ == b.capabilities@
    &&& tag_texts(a.tags@) == tag_texts(b.tags@)
    &&& a.is_mock == b.is_mock
    &&& a.status == b.status
    &&& a.supported_provider_contract_version@ == b.supported_provider_contract_version@
    &&& a.supported_sorla_ir@ == b.supported_sorla_ir@
    &&& a.supported_sorla_ir_range@ == b.supported_sorla_ir_range@
    &&& a.config_schema_path@ == b.config_schema_path@
    &&& opt_view(a.artifact_uri) == opt_view(b.artifact_uri)
    &&& opt_view(a.oci_reference) == opt_view(b.oci_reference)
    &&& match (a.ontology, b.ontology) {
        (None, None) => true,
        (Some(x), Some(y)) => same_ontology(x, y),
        _ => false,
    }
}

/// Two catalogs are equal as `==` compares them: the same markers and, entry
/// by entry, the same entries.
pub open spec fn same_catalog(a: ProviderCatalog, b: ProviderCatalog) -> bool {
    &&& a.catalog_format_version@ == b.catalog_format_version@
    &&& a.generated_from@ == b.generated_from@
    &&& a.entries@.len() == b.entries@.len()
    &&& forall|k: int| 0 <= k < a.entries@.len() ==> same_entry(#[trigger] a.entries@[k], b.entries@[k])
}

/// Entries generated from the same manifest are equal.
proof fn lemma_entries_of_same_manifest(a: ProviderCatalogEntry, b: ProviderCatalogEntry, m: ProviderPackManifest)
    requires
        entry_for_manifest(a, m),
        entry_for_manifest(b, m),
    ensures
        same_entry(a, b),
{
}

/// The catalog does not depend on the order of its manifests: for manifests
/// with distinct provider IDs, the catalogs generated from any two orderings
/// of them are equal.
pub proof fn law_catalog_ignores_manifest_order(
    ms: Seq<ProviderPackManifest>,
    p: Seq<usize>,
    ms2: Seq<ProviderPackManifest>,
    c1: ProviderCatalog,
    c2: ProviderCatalog,
)
    requires
        is_permutation(p, ms.len()),
        ms2.len() == ms.len(),
        forall|k: int| 0 <= k < ms.len() ==> ms2[k] == ms[#[trigger] p[k] as int],
        distinct_provider_ids(ms),
        catalog_from(c1, ms),
        catalog_from(c2, ms2),
    ensures
        same_catalog(c1, c2),
{
    let o1 = choose|o: Seq<usize>| #[trigger] entries_from(c1.entries@, ms, o);
    let o2 = choose|o: Seq<usize>| #[trigger] entries_from(c2.entries@, ms2, o);
    let e1 = c1.entries@;
    let e2 = c2.entries@;
    lemma_same_prefix_extends(ms, p, ms2, e1, o1, e2, o2, 0);
    assert forall|k: int| 0 <= k < e1.len() implies same_entry(#[trigger] e1[k], e2[k]) by {
        assert(ms[o1[k] as int] == ms2[o2[k] as int]);
        lemma_entries_of_same_manifest(e1[k], e2[k], ms[o1[k] as int]);
    }
}

proof fn lemma_contains_concat<A>(a: Seq<A>, b: Seq<A>, x: A)
    ensures
        (a + b).contains(x) <==> a.contains(x) || b.contains(x),
{
    if a.contains(x) {
        let i = choose|i: int| 0 <= i < a.len() && a[i] == x;
        assert((a + b)[i] == x);
    }
    if b.contains(x) {
        let i = choose|i: int| 0 <= i < b.len() && b[i] == x;
        assert((a + b)[a.len() + i] == x);
    }
    if (a + b).contains(x) {
        let i = choose|i: int| 0 <= i < (a + b).len() && (a + b)[i] == x;
        if i < a.len() {
            assert(a[i] == x);
        } else {
            assert(b[i - a.len()] == x);
        }
    }
}

/// A capability when its flag is set.
spec fn flagged(flag: bool, c: ProviderCapability) -> Seq<ProviderCapability> {
    if flag {
        seq![c]
    } else {
        seq![]
    }
}

proof fn lemma_flagged_contains(flag: bool, c: ProviderCapability, x: ProviderCapability)
    ensures
        flagged(flag, c).contains(x) <==> flag && x == c,
{
    if flag {
        assert(flagged(flag, c)[0] == c);
    }
}

/// A catalog entry lists an ontology capability exactly when the manifest
/// sets its flag: entity read, entity search, relationship query, path
/// finding, entity linking, ontology-scoped evidence and policy context; it
/// lists nothing else, and as many capabilities as flags are set.
pub proof fn law_catalog_ontology_capabilities(entry: ProviderCatalogEntry, manifest: ProviderPackManifest)
    requires
        entry_for_manifest(entry, manifest),
        manifest.ontology_capabilities is Some,
    ensures
        entry.ontology matches Some(e) && ({
            let o = manifest.ontology_capabilities.unwrap();
            let caps = e.capabilities@;
            &&& caps.contains(ProviderCapability::EntityRead) <==> o.supports_entity_read
            &&& caps.contains(ProviderCapability::EntitySearch) <==> o.supports_entity_search
            &&& caps.contains(ProviderCapability::RelationshipQuery) <==> o.supports_relationship_query
            &&& caps.contains(ProviderCapability::PathFind) <==> o.supports_path_find
            &&& caps.contains(ProviderCapability::EntityLink) <==> o.supports_entity_linking
            &&& caps.contains(ProviderCapability::OntologyScopedEvidenceQuery) <==> o.supports_ontology_scoped_evidence
            &&& caps.contains(ProviderCapability::PolicyContextResolve) <==> o.supports_policy_context
            &&& forall|x: ProviderCapability| #[trigger] caps.contains(x) ==> x == ProviderCapability::EntityRead
                || x == ProviderCapability::EntitySearch || x == ProviderCapability::RelationshipQuery
                || x == ProviderCapability::PathFind || x == ProviderCapability::EntityLink
                || x == ProviderCapability::OntologyScopedEvidenceQuery
                || x == ProviderCapability::PolicyContextResolve
            &&& caps.len() == (if o.supports_entity_read { 1int } else { 0 }) + (if o.supports_entity_search { 1int } else { 0 })
                + (if o.supports_relationship_query { 1int } else { 0 }) + (if o.supports_path_find { 1int } else { 0 })
                + (if o.supports_entity_linking { 1int } else { 0 }) + (if o.supports_ontology_scoped_evidence { 1int } else { 0 })
                + (if o.supports_policy_context { 1int } else { 0 })
        }),
{
    let o = manifest.ontology_capabilities.unwrap();
    let e = entry.ontology.unwrap();
    let s1 = flagged(o.supports_entity_read, ProviderCapability::EntityRead);
    let s2 = flagged(o.supports_entity_search, ProviderCapability::EntitySearch);
    let s3 = flagged(o.supports_relationship_query, ProviderCapability::RelationshipQuery);
    let s4 = flagged(o.supports_path_find, ProviderCapability::PathFind);
    let s5 = flagged(o.supports_entity_linking, ProviderCapability::EntityLink);
    let s6 = flagged(o.supports_ontology_scoped_evidence, ProviderCapability::OntologyScopedEvidenceQuery);
    let s7 = flagged(o.supports_policy_context, ProviderCapability::PolicyContextResolve);
    let caps = e.capabilities@;
    assert(caps == s1 + s2 + s3 + s4 + s5 + s6 + s7);
    assert forall|x: ProviderCapability| #[trigger] caps.contains(x) <==> ((o.supports_entity_read && x == ProviderCapability::EntityRead)
        || (o.supports_entity_search && x == ProviderCapability::EntitySearch)
        || (o.supports_relationship_query && x == ProviderCapability::RelationshipQuery)
        || (o.supports_path_find && x == ProviderCapability::PathFind)
        || (o.supports_entity_linking && x == ProviderCapability::EntityLink)
        || (o.supports_ontology_scoped_evidence && x == ProviderCapability::OntologyScopedEvidenceQuery)
        || (o.supports_policy_context && x == ProviderCapability::PolicyContextResolve)) by {
        lemma_contains_concat(s1 + s2 + s3 + s4 + s5 + s6, s7, x);
        lemma_contains_concat(s1 + s2 + s3 + s4 + s5, s6, x);
        lemma_contains_concat(s1 + s2 + s3 + s4, s5, x);
        lemma_contains_concat(s1 + s2 + s3, s4, x);
        lemma_contains_concat(s1 + s2, s3, x);
        lemma_contains_concat(s1, s2, x);
        lemma_flagged_contains(o.supports_entity_read, ProviderCapability::EntityRead, x);
        lemma_flagged_contains(o.supports_entity_search, ProviderCapability::EntitySearch, x);
        lemma_flagged_contains(o.supports_relationship_query, ProviderCapability::RelationshipQuery, x);
        lemma_flagged_contains(o.supports_path_find, ProviderCapability::PathFind, x);
        lemma_flagged_contains(o.supports_entity_linking, ProviderCapability::EntityLink, x);
        lemma_flagged_contains(o.supports_ontology_scoped_evidence, ProviderCapability::OntologyScopedEvidenceQuery, x);
        lemma_flagged_contains(o.supports_policy_context, ProviderCapability::PolicyContextResolve, x);
    }
    assert(caps.contains(ProviderCapability::EntityRead) <==> o.supports_entity_read);
    assert(caps.contains(ProviderCapability::EntitySearch) <==> o.supports_entity_search);
    assert(caps.contains(ProviderCapability::RelationshipQuery) <==> o.supports_relationship_query);
    assert(caps.contains(ProviderCapability::PathFind) <==> o.supports_path_find);
    assert(caps.contains(ProviderCapability::EntityLink) <==> o.supports_entity_linking);
    assert(caps.contains(ProviderCapability::OntologyScopedEvidenceQuery) <==> o.supports_ontology_scoped_evidence);
    assert(caps.contains(ProviderCapability::PolicyContextResolve) <==> o.supports_policy_context);
    assert(caps.len() == s1.len() + s2.len() + s3.len() + s4.len() + s5.len() + s6.len() + s7.len());
}

/// A catalog entry is tagged with the provider's kind and its marker
/// (`mock` or `real`) and nothing else, each once, in text order; it points
/// at the first artifact the manifest references, if any; it advertises the
/// manifest's capabilities and carries its id, version and kind.
pub proof fn law_catalog_entry_fields(entry: ProviderCatalogEntry, manifest: ProviderPackManifest)
    requires
        entry_for_manifest(entry, manifest),
    ensures
        ({
            let tags = tag_texts(entry.tags@);
            let kind = manifest.provider_kind@;
            let marker = if manifest.is_mock { "mock"@ } else { "real"@ };
            &&& tags.contains(kind)
            &&& tags.contains(marker)
            &&& forall|t: Seq<char>| tags.contains(t) ==> t == kind || t == marker
            &&& forall|i: int, j: int| 0 <= i < j < tags.len() ==> chars_lt(#[trigger] tags[i], #[trigger] tags[j])
            &&& (entry.artifact_uri is Some <==> manifest.artifact_references@.len() > 0)
            &&& entry.artifact_uri matches Some(u) ==> u == manifest.artifact_references@[0].uri
            &&& entry.capabilities@ == manifest.capabilities@
            &&& entry.provider_id@ == manifest.provider_id@
            &&& entry.provider_version@ == manifest.provider_version@
            &&& entry.provider_kind@ == kind
            &&& entry.is_mock == manifest.is_mock
        }),
{
    let tags = tag_texts(entry.tags@);
    let kind = manifest.provider_kind@;
    let m = marker_tag(manifest.is_mock);
    assert(tags == tags_text(kind, manifest.is_mock));
    if kind == m {
        assert(tags[0] == m);
    } else if chars_lt(kind, m) {
        assert(tags[0] == kind && tags[1] == m);
    } else {
        assert(tags[0] == m && tags[1] == kind);
        crate::text::lemma_chars_lt_total(kind, m);
    }
}

} // verus!
