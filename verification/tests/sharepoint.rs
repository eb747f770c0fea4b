use sorla_providers::sharepoint::{
    catalog_entry, pack_manifest, ExternalMappingDocument, ExternalMappingRule,
    ExternalReferenceMetadata, SharePointMockConfig, SharePointMockProvider, SharePointMockRecord,
};
use sorla_providers::traits::{ConfigValidator, ExternalMappingProvider, ProviderHealth, ProviderMetadataSource};
use sorla_providers::types::{EntityLinkRequest, ExternalReferenceRequest, ProviderCapability};

fn request(reference_type: &str) -> ExternalReferenceRequest {
    ExternalReferenceRequest {
        reference_type: reference_type.into(),
        reference_id: "asset-42".into(),
        source_ref: Some("sharepoint://tenant/ka-fd-demo/document/asset-42".into()),
        metadata_json: Some(r#"{"building_id":"building-kafd-01","floor_id":"floor-07"}"#.into()),
        ontology_scope: None,
    }
}

fn metadata() -> ExternalReferenceMetadata {
    ExternalReferenceMetadata {
        building_id: Some("building-kafd-01".into()),
        floor_id: Some("floor-07".into()),
    }
}

#[test]
fn sharepoint_mock_advertises_external_reference_capability() {
    let provider = SharePointMockProvider::for_tests();
    let metadata = provider.metadata();
    assert!(metadata.supports(ProviderCapability::ExternalReferenceResolve));
    assert!(metadata.supports(ProviderCapability::ExternalMappingValidate));
    assert!(metadata.supports(ProviderCapability::EntityLink));
    assert!(metadata.is_mock);
}

#[test]
fn sharepoint_mock_reports_health_and_pack_metadata() {
    let provider = SharePointMockProvider::for_tests();
    assert!(provider.health().is_ok());
    assert!(provider
        .validate_config(Ok(SharePointMockConfig { seed: "demo-seed".into(), tenant_id: "tenant-a".into() }))
        .is_ok());
    assert!(provider.validate_config(Err("missing field `seed`".into())).is_err());

    let manifest = pack_manifest();
    let entry = catalog_entry();

    assert_eq!(manifest.provider_id, entry.provider_id);
    assert_eq!(manifest.provider_version, "0.1.4");
    assert_eq!(
        manifest.oci_reference.as_deref(),
        Some("oci://ghcr.io/greenticai/sorla-providers/sharepoint-mock:0.1.4")
    );
    assert_eq!(provider.pack_emission().artifact_ref, "file://generated/provider-sharepoint-mock.gtpack");
    assert_eq!(manifest.runtime_components.len(), 1);
    assert!(manifest.ontology_capabilities.is_some());
    assert!(entry.ontology.is_some());
}

#[test]
fn sharepoint_mock_returns_deterministic_btg_payloads() {
    let provider = SharePointMockProvider::for_tests();
    let first = provider.resolve_record(&request("btg"), Ok(metadata())).expect("resolution should succeed");
    let second = provider.resolve_record(&request("btg"), Ok(metadata())).expect("resolution should succeed");

    assert_eq!(first, second);

    match first.2 {
        SharePointMockRecord::Btg(item) => {
            assert_eq!(item.building_id, "building-kafd-01");
            assert_eq!(item.floor_id.as_deref(), Some("floor-07"));
            assert_eq!(item.sections.len(), 2);
            assert!(item.source_url.contains("/btg/"));
            assert_eq!(first.0, item.document_id);
            assert_eq!(first.1, item.source_url);
        }
        other => panic!("expected BTG payload, got {other:?}"),
    }
}

#[test]
fn sharepoint_mock_supports_rfi_and_site_visit_families() {
    let provider = SharePointMockProvider::for_tests();

    let rfi = provider.resolve_record(&request("rfi"), Ok(metadata())).expect("rfi should resolve");
    let site_visit = provider.resolve_record(&request("site-visit"), Ok(metadata())).expect("site visit should resolve");

    match rfi.2 {
        SharePointMockRecord::Rfi(item) => {
            assert_eq!(item.building_id, "building-kafd-01");
            assert!(item.source_url.contains("/rfi/"));
        }
        other => panic!("expected RFI payload, got {other:?}"),
    }

    match site_visit.2 {
        SharePointMockRecord::SiteVisit(item) => {
            assert_eq!(item.building_id, "building-kafd-01");
            assert_eq!(item.findings.len(), 3);
            assert!(item.source_url.contains("/site-visit/"));
        }
        other => panic!("expected site visit payload, got {other:?}"),
    }
}

#[test]
fn sharepoint_mock_rejects_unknown_reference_types() {
    let provider = SharePointMockProvider::for_tests();
    let result = provider.resolve_record(&request("drawing-set"), Ok(metadata()));
    assert!(result.is_err());
    let bad_metadata = provider.resolve_record(&request("btg"), Err("expected value".into()));
    assert!(bad_metadata.is_err());
}

#[test]
fn sharepoint_mock_falls_back_to_a_derived_building() {
    let provider = SharePointMockProvider::for_tests();
    let plain = provider.resolve_record(&request("btg"), Ok(ExternalReferenceMetadata::default())).unwrap();
    match plain.2 {
        SharePointMockRecord::Btg(item) => {
            assert!(item.building_id.starts_with("building-"));
            assert!(item.floor_id.is_none());
        }
        other => panic!("expected BTG payload, got {other:?}"),
    }
}

#[test]
fn sharepoint_mock_validates_generic_external_mapping() {
    let provider = SharePointMockProvider::for_tests();
    let valid = ExternalMappingDocument {
        schema: "greentic.sorla.external-mapping.v1".into(),
        provider_id: "greentic.sorla.provider.sharepoint-mock".into(),
        mappings: vec![ExternalMappingRule {
            source_type: "document".into(),
            target_concept: "EvidenceDocument".into(),
            id_field: "document_id".into(),
            entity_fields: vec![("title".into(), "title".into()), ("source_url".into(), "source_url".into())],
        }],
    };
    let invalid = ExternalMappingDocument {
        schema: "greentic.sorla.external-mapping.v1".into(),
        provider_id: "other".into(),
        mappings: vec![],
    };

    assert!(provider.validate_mapping(Ok(valid)).is_ok());
    assert!(provider.validate_mapping(Ok(invalid)).is_err());
    assert!(provider.validate_mapping(Err("trailing comma".into())).is_err());
}

#[test]
fn sharepoint_mock_links_generic_entities_from_source_ref() {
    let provider = SharePointMockProvider::for_tests();
    let links = provider
        .link_entities(
            EntityLinkRequest {
                source_ref: Some("sharepoint://tenant/ka-fd-demo/document/doc-123".into()),
                evidence_id: None,
                content_json: None,
                candidate_types: vec!["EvidenceDocument".into()],
                ontology_scope: None,
            },
            None,
        )
        .expect("linking should succeed");

    assert_eq!(links.len(), 1);
    assert_eq!(links[0].entity.entity_type, "EvidenceDocument");
    assert_eq!(links[0].entity.entity_id, "doc-123");
    assert_eq!(links[0].match_kind, "external-id");
    assert_eq!(links[0].source_ref, "sharepoint://tenant/ka-fd-demo/document/doc-123");
}

#[test]
fn sharepoint_mock_refuses_foreign_source_refs() {
    let provider = SharePointMockProvider::for_tests();
    let refused = provider.link_entities(
        EntityLinkRequest {
            source_ref: Some("https://example.com/doc-1".into()),
            evidence_id: None,
            content_json: None,
            candidate_types: vec![],
            ontology_scope: None,
        },
        None,
    );
    assert!(refused.is_err());
}

#[test]
fn sharepoint_mock_links_generic_entities_from_content_metadata() {
    let provider = SharePointMockProvider::for_tests();
    let (_, _, record) = provider.resolve_record(&request("btg"), Ok(metadata())).expect("resolution should succeed");
    let links = provider
        .link_entities(
            EntityLinkRequest {
                source_ref: None,
                evidence_id: None,
                content_json: Some("{}".into()),
                candidate_types: vec![],
                ontology_scope: None,
            },
            Some(Ok(record)),
        )
        .expect("linking should succeed");

    assert_eq!(links.len(), 1);
    assert_eq!(links[0].entity.entity_type, "EvidenceDocument");
    assert!(links[0].metadata_json.as_deref().is_some_and(|metadata| metadata.contains("building_id")));
}
