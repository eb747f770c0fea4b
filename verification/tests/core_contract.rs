use sorla_providers::types::{
    ContractCompatibility, OntologyContractCompatibility, ProviderCapability, ProviderMetadata, ProviderStatus, SorNamespace,
    SORLA_PROVIDER_CONTRACT_VERSION,
};

fn sample_metadata() -> ProviderMetadata {
    ProviderMetadata {
        provider_id: "greentic.sorla.provider.foundationdb".into(),
        display_name: "FoundationDB".into(),
        provider_kind: "event-store".into(),
        version: "0.1.0".into(),
        status: ProviderStatus::Experimental,
        is_mock: false,
        capabilities: vec![
            ProviderCapability::EventAppend,
            ProviderCapability::EventStreamRead,
            ProviderCapability::ProjectionGet,
            ProviderCapability::ProjectionPut,
        ],
        compatibility: ContractCompatibility::new(SORLA_PROVIDER_CONTRACT_VERSION, "0.1", "0.1"),
        ontology_capabilities: None,
    }
}

#[test]
fn metadata_reports_capability_presence() {
    let metadata = sample_metadata();
    assert!(metadata.supports(ProviderCapability::ProjectionGet));
    assert!(!metadata.supports(ProviderCapability::EvidenceQuery));
}

#[test]
fn compatibility_tracks_contract_version() {
    let metadata = sample_metadata();
    assert_eq!(
        metadata.compatibility.supported_provider_contract_version,
        SORLA_PROVIDER_CONTRACT_VERSION
    );
}

#[test]
fn sor_namespace_maps_to_existing_entity_namespace() {
    let namespace = SorNamespace {
        tenant_id: "tenant-a".into(),
        sor_id: "contracts".into(),
        environment_id: None,
    };
    let dev_namespace = SorNamespace {
        tenant_id: "tenant-a".into(),
        sor_id: "contracts".into(),
        environment_id: Some("dev".into()),
    };

    assert_eq!(namespace.production_key(), "tenant-a\u{1f}contracts");
    assert_eq!(namespace.to_entity_namespace(), "tenant-a/contracts");
    assert_eq!(dev_namespace.production_key(), namespace.production_key());
    assert_eq!(dev_namespace.to_entity_namespace(), "tenant-a/contracts/dev");
}

#[test]
fn metadata_checks_finish_quickly() {
    let metadata = ProviderMetadata {
        provider_id: "greentic.sorla.provider.core.timeout".into(),
        display_name: "Timeout".into(),
        provider_kind: "mock".into(),
        version: "0.1.0".into(),
        status: ProviderStatus::Experimental,
        is_mock: true,
        capabilities: vec![ProviderCapability::PackMetadataEmit; 16],
        compatibility: ContractCompatibility::new(SORLA_PROVIDER_CONTRACT_VERSION, "0.1", ">=0.1, <0.2"),
        ontology_capabilities: None,
    };

    let start = std::time::Instant::now();
    let mut checks = 0usize;
    for _ in 0..250_000 {
        if metadata.supports(ProviderCapability::PackMetadataEmit) {
            checks += 1;
        }
    }
    let elapsed = start.elapsed();

    assert!(checks > 0);
    assert!(
        elapsed < std::time::Duration::from_secs(2),
        "metadata checks were too slow: {elapsed:?}"
    );
}

#[test]
fn semver_ranges_are_checked_by_the_semver_crate() {
    let good = ContractCompatibility::new(SORLA_PROVIDER_CONTRACT_VERSION, "0.1", ">=0.1, <0.2");
    let bad = ContractCompatibility::new(SORLA_PROVIDER_CONTRACT_VERSION, "0.1", "not a range");
    assert!(good.parses_semver_range());
    assert!(!bad.parses_semver_range());
}

#[test]
fn entity_namespace_without_environment_matches_production_parts() {
    let namespace = SorNamespace {
        tenant_id: "t".into(),
        sor_id: "s".into(),
        environment_id: Some("prod".into()),
    };
    assert_eq!(namespace.to_entity_namespace(), "t/s/prod");
    assert_eq!(namespace.production_key(), "t\u{1f}s");
}

#[test]
fn ontology_compatibility_validates_schema_ranges() {
    let valid = OntologyContractCompatibility {
        supported_ontology_schema: "greentic.sorla.ontology.v1".into(),
        supported_ontology_schema_range: ">=1.0.0, <2.0.0".into(),
        supported_retrieval_binding_schema: Some("greentic.sorla.retrieval-bindings.v1".into()),
        supported_external_mapping_schema: None,
    };
    let invalid = OntologyContractCompatibility {
        supported_ontology_schema: "greentic.sorla.ontology.v1".into(),
        supported_ontology_schema_range: "not a range".into(),
        supported_retrieval_binding_schema: None,
        supported_external_mapping_schema: None,
    };

    assert!(valid.parses_schema_range());
    assert!(!invalid.parses_schema_range());
}
