use sorla_providers::rag::{
    catalog_entry, pack_manifest, RagEvidenceFilter, RagMockConfig, RagMockProvider,
};
use sorla_providers::traits::{ConfigValidator, ProviderHealth, ProviderMetadataSource};
use sorla_providers::types::ProviderCapability;

const QUERY: &str = "Show BTG and RFI evidence for building-kafd-01 floor-07 smoke control";

fn base_filter() -> RagEvidenceFilter {
    RagEvidenceFilter {
        building_id: Some("building-kafd-01".into()),
        floor_id: Some("floor-07".into()),
        document_type: None,
        source_type: None,
    }
}

#[test]
fn rag_mock_advertises_evidence_capabilities() {
    let provider = RagMockProvider::for_tests();
    let metadata = provider.metadata();
    assert!(metadata.supports(ProviderCapability::EvidenceQuery));
    assert!(metadata.supports(ProviderCapability::EvidenceResolve));
}

#[test]
fn rag_mock_reports_health_and_pack_metadata() {
    let provider = RagMockProvider::for_tests();
    assert!(provider.health().is_ok());
    assert!(provider
        .validate_config(Ok(RagMockConfig { seed: "demo-seed".into(), max_results: 4 }))
        .is_ok());
    assert!(provider.validate_config(Err("missing field `seed`".into())).is_err());
    assert!(provider
        .validate_config(Ok(RagMockConfig { seed: "demo-seed".into(), max_results: 0 }))
        .is_err());

    let manifest = pack_manifest();
    let entry = catalog_entry();

    assert_eq!(manifest.provider_id, entry.provider_id);
    assert_eq!(manifest.provider_version, "0.1.4");
    assert_eq!(manifest.oci_reference.as_deref(), Some("oci://ghcr.io/greenticai/sorla-providers/rag-mock:0.1.4"));
    assert_eq!(provider.pack_emission().artifact_ref, "file://generated/provider-rag-mock.gtpack");
    assert_eq!(manifest.runtime_components.len(), 1);
}

#[test]
fn rag_mock_returns_deterministic_results() {
    let provider = RagMockProvider::for_tests();
    let docs = provider.matching_documents(&base_filter());
    assert!(!docs.is_empty());
    let first: Vec<_> = docs.iter().map(|d| provider.evidence_draft(QUERY, d)).collect();
    let second: Vec<_> = docs.iter().map(|d| provider.evidence_draft(QUERY, d)).collect();
    assert_eq!(first, second);
    assert!(first[0].provenance.contains("source="));
    assert_eq!(provider.stable_hash(QUERY, &docs[0]), provider.stable_hash(QUERY, &docs[0]));
    assert_ne!(provider.stable_hash(QUERY, &docs[0]), provider.stable_hash("other", &docs[0]));
}

#[test]
fn rag_mock_applies_source_and_document_filters() {
    let provider = RagMockProvider::for_tests();
    let mut filter = base_filter();
    filter.document_type = Some("btg".into());
    filter.source_type = Some("btg".into());

    let items = provider.matching_documents(&filter);

    assert!(!items.is_empty());
    assert!(items.iter().all(|item| item.source_type == "btg"));
    assert_eq!(provider.matching_documents(&RagEvidenceFilter::default()).len(), 4);
    assert_eq!(provider.matching_documents(&base_filter()).len(), 3);
}

#[test]
fn rag_mock_respects_result_limits() {
    let provider = RagMockProvider::for_tests();
    assert_eq!(provider.evidence_limit(1), 1);
    assert_eq!(provider.evidence_limit(0), 1);
    assert_eq!(provider.evidence_limit(100), provider.evidence_limit(usize::MAX));
}

#[test]
fn rag_mock_drafts_name_their_document() {
    let provider = RagMockProvider::for_tests();
    let docs = provider.matching_documents(&base_filter());
    let draft = provider.evidence_draft(QUERY, &docs[0]);
    assert_eq!(draft.source_ref, format!("sharepoint://{}/{}", docs[0].building_id, docs[0].document_id));
    assert!(draft.evidence_id.starts_with("evidence-"));
    assert_eq!(draft.evidence_id.len(), "evidence-".len() + 16);
    assert!(draft.snippet.starts_with(&docs[0].title));
    let signals = provider.score_signals(QUERY, &docs[0]);
    assert!(signals.building_hit);
    assert!(signals.jitter < 10);
}
