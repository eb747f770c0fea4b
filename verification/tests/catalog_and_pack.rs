use sorla_providers::ontology_smoke::{credential_like_pattern, credential_pattern};
use sorla_providers::catalog::ProviderCatalog;
use sorla_providers::pack::{
    provider_artifact_file_uri, provider_runtime_oci_reference, provider_slug, ArtifactReference,
    ConfigSchemaRef, GeneratedPackArtifact, ProviderPackManifest, RuntimeComponentRef,
};
use sorla_providers::types::{
    ContractCompatibility, OntologyContractCompatibility, ProviderCapability, ProviderMetadata,
    ProviderOntologyCapabilities, ProviderStatus, SORLA_PROVIDER_CONTRACT_VERSION,
};

fn manifest(provider_id: &str, provider_kind: &str, is_mock: bool) -> ProviderPackManifest {
    ProviderPackManifest::from_metadata(
        &ProviderMetadata {
            provider_id: provider_id.into(),
            display_name: provider_id.into(),
            provider_kind: provider_kind.into(),
            version: "0.1.0".into(),
            status: ProviderStatus::Experimental,
            is_mock,
            capabilities: vec![ProviderCapability::PackMetadataEmit],
            compatibility: ContractCompatibility::new(SORLA_PROVIDER_CONTRACT_VERSION, "0.1", ">=0.1, <0.2"),
            ontology_capabilities: None,
        },
        vec![ArtifactReference {
            kind: "gtpack-json".into(),
            uri: format!("./{provider_id}.gtpack.json"),
        }],
        vec![RuntimeComponentRef {
            component_id: format!("{provider_id}-runtime"),
            kind: "service".into(),
            entrypoint: provider_id.into(),
            artifact_uri: format!("oci://ghcr.io/greenticai/{provider_id}:v0.1.0"),
        }],
        ConfigSchemaRef {
            format: "json-schema".into(),
            path: "schemas/provider-config.schema.json".into(),
            schema_json: r#"{"type":"object","additionalProperties":false}"#.into(),
        },
    )
}

fn ontology_capabilities(read: bool) -> ProviderOntologyCapabilities {
    ProviderOntologyCapabilities {
        schema: "greentic.sorla.provider.ontology-capabilities.v1".into(),
        compatibility: OntologyContractCompatibility {
            supported_ontology_schema: "greentic.sorla.ontology.v1".into(),
            supported_ontology_schema_range: ">=1.0.0, <2.0.0".into(),
            supported_retrieval_binding_schema: Some("greentic.sorla.retrieval-bindings.v1".into()),
            supported_external_mapping_schema: None,
        },
        supports_entity_read: read,
        supports_entity_search: read,
        supports_relationship_query: false,
        supports_path_find: false,
        supports_entity_linking: false,
        supports_ontology_scoped_evidence: true,
        supported_concept_types: vec!["EvidenceDocument".into()],
        supported_relationship_types: vec![],
        max_traversal_depth: Some(1),
        supports_policy_context: false,
        index_capabilities: None,
        search_capabilities: None,
    }
}

fn ontology_manifest(provider_id: &str) -> ProviderPackManifest {
    let mut manifest = manifest(provider_id, "evidence", true);
    manifest.capabilities.push(ProviderCapability::OntologyScopedEvidenceQuery);
    manifest.ontology_capabilities = Some(ontology_capabilities(false));
    manifest
}

#[test]
fn catalog_generation_is_sorted_and_stable() {
    let catalog = ProviderCatalog::from_manifests(&[
        manifest("provider-b", "evidence", true),
        manifest("provider-a", "event-store", false),
    ]);

    assert_eq!(catalog.entries[0].provider_id, "provider-a");
    assert_eq!(catalog.entries[0].tags, vec!["event-store", "real"]);
    assert_eq!(catalog.entries[1].artifact_uri.as_deref(), Some("./provider-b.gtpack.json"));
}

#[test]
fn catalog_serializes_ontology_metadata_from_manifest() {
    let catalog = ProviderCatalog::from_manifests(&[ontology_manifest("provider-ontology")]);

    let entry = &catalog.entries[0];
    let ontology = entry.ontology.as_ref().expect("ontology metadata");
    assert_eq!(ontology.capabilities, vec![ProviderCapability::OntologyScopedEvidenceQuery]);
    assert_eq!(ontology.max_traversal_depth, Some(1));
    assert!(ontology.supports_generic_entity_refs);
    assert_eq!(ontology.supported_ontology_schema, "greentic.sorla.ontology.v1");
    assert_eq!(
        ontology.supported_retrieval_binding_schema.as_deref(),
        Some("greentic.sorla.retrieval-bindings.v1")
    );
}

#[test]
fn catalog_is_the_same_for_any_input_order() {
    let one = ProviderCatalog::from_manifests(&[
        manifest("provider-c", "evidence", true),
        manifest("provider-a", "event-store", false),
        manifest("provider-b", "external-ref", true),
    ]);
    let two = ProviderCatalog::from_manifests(&[
        manifest("provider-b", "external-ref", true),
        manifest("provider-c", "evidence", true),
        manifest("provider-a", "event-store", false),
    ]);
    assert_eq!(one, two);
    assert_eq!(one.catalog_format_version, "sorla-provider-catalog/v1");
    assert_eq!(one.generated_from, "generated-pack-manifests");
    let ids: Vec<&str> = one.entries.iter().map(|e| e.provider_id.as_str()).collect();
    assert_eq!(ids, vec!["provider-a", "provider-b", "provider-c"]);
    assert_eq!(one.entries[1].tags, vec!["external-ref", "mock"]);
}

#[test]
fn catalog_of_no_manifests_is_empty() {
    let catalog = ProviderCatalog::from_manifests(&[]);
    assert!(catalog.entries.is_empty());
}

fn sample_metadata() -> ProviderMetadata {
    ProviderMetadata {
        provider_id: "greentic.sorla.provider.sharepoint-mock".into(),
        display_name: "SharePoint Mock".into(),
        provider_kind: "external-ref".into(),
        version: "0.1.0".into(),
        status: ProviderStatus::Experimental,
        is_mock: true,
        capabilities: vec![ProviderCapability::ExternalReferenceResolve, ProviderCapability::PackMetadataEmit],
        compatibility: ContractCompatibility::new(SORLA_PROVIDER_CONTRACT_VERSION, "0.1", ">=0.1, <0.2"),
        ontology_capabilities: None,
    }
}

fn sample_manifest() -> ProviderPackManifest {
    ProviderPackManifest::from_metadata(
        &sample_metadata(),
        vec![ArtifactReference {
            kind: "gtpack-json".into(),
            uri: "./greentic-sorla-provider-sharepoint-mock.gtpack.json".into(),
        }],
        vec![RuntimeComponentRef {
            component_id: "sharepoint-mock-runtime".into(),
            kind: "service".into(),
            entrypoint: "provider-sharepoint-mock".into(),
            artifact_uri: "oci://ghcr.io/greenticai/greentic-sorla-providers/provider-sharepoint-mock:v0.1.0".into(),
        }],
        ConfigSchemaRef {
            format: "json-schema".into(),
            path: "schemas/provider-config.schema.json".into(),
            schema_json: r#"{"type":"object","additionalProperties":false}"#.into(),
        },
    )
}

#[test]
fn pack_manifest_preserves_provider_identity() {
    let manifest = sample_manifest();

    assert_eq!(manifest.provider_id, "greentic.sorla.provider.sharepoint-mock");
    assert_eq!(manifest.artifact_references.len(), 1);
    assert_eq!(manifest.runtime_components.len(), 1);
    assert!(manifest.is_mock);
}

#[test]
fn pack_manifest_takes_summary_oci_reference_and_ontology_from_metadata() {
    let manifest = sample_manifest();
    assert_eq!(manifest.pack_format_version, "sorla-provider-pack/v1");
    assert_eq!(manifest.display.title, "SharePoint Mock");
    assert_eq!(manifest.display.summary, "SharePoint Mock provider manifest for SoRLa");
    assert_eq!(
        manifest.oci_reference.as_deref(),
        Some("oci://ghcr.io/greenticai/greentic-sorla-providers/provider-sharepoint-mock:v0.1.0")
    );
    assert!(manifest.ontology_capabilities.is_none());

    let mut metadata = sample_metadata();
    metadata.ontology_capabilities = Some(ontology_capabilities(true));
    let with_ontology = ProviderPackManifest::from_metadata(&metadata, vec![], vec![], manifest.config_schema.clone());
    assert_eq!(with_ontology.ontology_capabilities, Some(ontology_capabilities(true)));
    assert!(with_ontology.oci_reference.is_none());
}

#[test]
fn pack_names_follow_the_provider_id() {
    let manifest = sample_manifest();
    assert_eq!(manifest.package_dir_name(), "greentic-sorla-provider-sharepoint-mock");
    assert_eq!(manifest.artifact_file_name(), "greentic-sorla-provider-sharepoint-mock.gtpack.json");
    assert_eq!(manifest.provider_slug(), "sharepoint-mock");
    assert_eq!(provider_slug("greentic.sorla.provider.provider-Rag-Mock"), "rag-mock");
    assert_eq!(provider_slug("plain"), "plain");
    assert_eq!(
        provider_artifact_file_uri("greentic.sorla.provider.foundationdb"),
        "./greentic-sorla-provider-foundationdb.gtpack.json"
    );
    assert_eq!(
        provider_runtime_oci_reference("greentic.sorla.provider.foundationdb", "0.1.8"),
        "oci://ghcr.io/greenticai/sorla-providers/foundationdb:0.1.8"
    );
    let artifact = GeneratedPackArtifact::from_manifest(manifest.clone());
    assert_eq!(artifact.artifact_format, "sorla-provider-gtpack/v1");
    assert_eq!(artifact.manifest, manifest);
}

#[test]
fn graph_and_mapping_packs_carry_ontology_compatibility_into_the_catalog() {
    let manifests = vec![
        sorla_providers::fdb_provider::pack_manifest(),
        sorla_providers::sharepoint::pack_manifest(),
        sorla_providers::rag::pack_manifest(),
    ];
    assert!(manifests[0].ontology_capabilities.is_some());
    assert!(manifests[1].ontology_capabilities.is_some());
    assert!(manifests[2].ontology_capabilities.is_none());
    let catalog = ProviderCatalog::from_manifests(&manifests);
    assert_eq!(catalog.entries.len(), 3);
    for entry in &catalog.entries {
        match entry.ontology.as_ref() {
            Some(ontology) => {
                assert_ne!(entry.provider_id, "greentic.sorla.provider.rag-mock");
                assert!(!ontology.supported_ontology_schema.is_empty());
                assert!(ontology.supported_ontology_schema_range.contains("1.0.0"));
            }
            None => assert_eq!(entry.provider_id, "greentic.sorla.provider.rag-mock"),
        }
    }
}

#[test]
fn generated_manifests_and_catalog_hold_no_credential_like_text() {
    let manifests = vec![
        sorla_providers::fdb_provider::pack_manifest(),
        sorla_providers::sharepoint::pack_manifest(),
        sorla_providers::rag::pack_manifest(),
    ];
    let catalog = ProviderCatalog::from_manifests(&manifests);
    let text = format!("{manifests:?}\n{catalog:?}").to_ascii_lowercase();
    for pattern in ["password", "secret", "api_key", "apikey", "credential", "private_key"] {
        assert!(!text.contains(pattern), "credential-like text: {pattern}");
    }
}

#[test]
fn catalog_ontology_check_counts_entries_when_every_pack_advertises_compatibility() {
    let manifests = vec![
        sorla_providers::fdb_provider::pack_manifest(),
        sorla_providers::sharepoint::pack_manifest(),
    ];
    assert_eq!(sorla_providers::ontology_smoke::check_catalog_ontology(&manifests), Ok(2));
}

#[test]
fn catalog_ontology_check_refuses_a_pack_without_ontology_metadata() {
    let manifests = vec![
        sorla_providers::fdb_provider::pack_manifest(),
        sorla_providers::sharepoint::pack_manifest(),
        sorla_providers::rag::pack_manifest(),
    ];
    assert_eq!(
        sorla_providers::ontology_smoke::check_catalog_ontology(&manifests),
        Err("expected all smoke providers to advertise ontology metadata".to_string())
    );
}

#[test]
fn catalog_ontology_check_refuses_a_range_without_the_supported_major() {
    let mut manifest = sorla_providers::fdb_provider::pack_manifest();
    if let Some(ontology) = manifest.ontology_capabilities.as_mut() {
        ontology.compatibility.supported_ontology_schema_range = ">=2.0.0, <3.0.0".into();
    }
    assert_eq!(
        sorla_providers::ontology_smoke::check_catalog_ontology(&vec![manifest]),
        Err("expected catalog ontology compatibility metadata".to_string())
    );
}

#[test]
fn credential_check_reports_the_first_pattern_in_lowercased_text() {
    assert_eq!(credential_like_pattern("{\"schema\": \"greentic.sorla.ontology.v1\"}"), None);
    assert_eq!(credential_like_pattern("{\"API_KEY\": \"x\", \"Secret\": \"y\"}"), Some(1));
    assert_eq!(credential_like_pattern("private_key and apikey"), Some(3));
    assert_eq!(credential_pattern(5), "private_key");
}

#[test]
fn rag_catalog_entry_is_the_generated_entry() {
    let generated = ProviderCatalog::from_manifests(&[sorla_providers::rag::pack_manifest()]);
    assert_eq!(sorla_providers::rag::catalog_entry(), generated.entries[0]);
}
