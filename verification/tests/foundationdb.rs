use sorla_providers::fdb_provider::{
    catalog_entry, fdb_real_backend_available, pack_manifest,
    FoundationDbConfig, FoundationDbProvider,
};
use sorla_providers::keyspace::{encode_key_segment, FdbKeyspace};
use sorla_providers::fdb_txn::{
    canonical_write_after_head, canonical_write_after_idempotency, canonical_write_begin, canonical_write_committed,
    decode_u64, encode_u64, select_stream_events, stream_read_range, FdbWriteRefusal, FdbWriteStep, FdbWriteValue,
};
use sorla_providers::traits::{
    CanonicalEntityStoreProvider, CanonicalWriteProvider, ConfigValidator, EntityLinkProvider,
    EntityStoreProvider, EventStoreProvider, OntologyGraphProvider, ProjectionProvider,
    ProviderHealth, ProviderMetadataSource,
};
use sorla_providers::types::{
    AppendEventRequest, CanonicalEntityRecord, CanonicalWriteRequest, EntityLink,
    EntityLinkRequest, EntityRecord, EntityRef, EntitySearchQuery, EventStreamRequest, PathQuery,
    PersistProjectionRequest, ProjectionRebuildRequest, ProviderCapability, ProviderError,
    RelationshipDirection, RelationshipInstance, RelationshipQuery, RelationshipRef,
    SorEventRecord, SorNamespace,
};

fn ns() -> SorNamespace {
    SorNamespace {
        tenant_id: "tenant/acme".into(),
        sor_id: "contracts".into(),
        environment_id: Some("dev".into()),
    }
}

#[test]
fn root_ignores_environment_and_encodes_segments() {
    let ks = FdbKeyspace::new(&ns());
    let key = ks.canonical_entity_key("Contract", "c-1");
    let text = String::from_utf8_lossy(&key);
    assert!(text.starts_with("/sorx/tenant%2Facme/contracts/entities/"));
    assert!(!text.contains("dev"));
    assert!(text.ends_with("Contract\u{1f}c-1"));
}

#[test]
fn event_keys_are_lexicographically_ordered_by_sequence() {
    let ks = FdbKeyspace::new(&ns());
    let k9 = ks.canonical_event_key("Contract/c-1", 9);
    let k10 = ks.canonical_event_key("Contract/c-1", 10);
    assert!(k9 < k10, "zero-padded sequence must sort numerically");
}

#[test]
fn stream_range_brackets_all_events() {
    let ks = FdbKeyspace::new(&ns());
    let (lo, hi) = ks.canonical_event_stream_range("Contract/c-1");
    let k = ks.canonical_event_key("Contract/c-1", 5);
    assert!(lo <= k && k < hi);
}

#[test]
fn idempotency_and_edge_keys_are_distinct_subspaces() {
    let ks = FdbKeyspace::new(&ns());
    let idem = ks.idempotency_key("idem-1");
    let edge = ks.edge_out_key("has_contract", "Customer\u{1f}cust-1", "Contract\u{1f}c-1");
    assert_ne!(idem, edge);
    assert!(String::from_utf8_lossy(&edge).contains("/edges/out/"));
}

#[test]
fn head_key_is_outside_stream_event_range() {
    let ks = FdbKeyspace::new(&ns());
    let (_, hi) = ks.canonical_event_stream_range("Contract/c-1");
    let head = ks.canonical_event_head_key("Contract/c-1");
    assert!(
        head >= hi,
        "head key ({}) must be >= hi bound ({}) to be excluded from the event range",
        String::from_utf8_lossy(&head),
        String::from_utf8_lossy(&hi)
    );
}

#[test]
fn real_feature_symbol_exists() {
    let _ = fdb_real_backend_available();
}

#[test]
fn default_build_uses_in_memory_backend() {
    let provider = FoundationDbProvider::for_tests();
    let meta = provider.metadata();
    assert_eq!(meta.provider_id, "greentic.sorla.provider.foundationdb");
}

#[test]
fn keyspace_keys_have_exact_text() {
    let ks = FdbKeyspace::new(&ns());
    assert_eq!(
        String::from_utf8(ks.canonical_event_key("Contract/c-1", 7)).unwrap(),
        "/sorx/tenant%2Facme/contracts/events/Contract%2Fc-1/00000000000000000007"
    );
    assert_eq!(
        String::from_utf8(ks.idempotency_key("idem-1")).unwrap(),
        "/sorx/tenant%2Facme/contracts/idempotency/idem-1"
    );
    assert_eq!(encode_key_segment("a b/é"), "a%20b%2F%C3%A9");
    assert_eq!(encode_key_segment("Az09-_."), "Az09-_.");
}

#[test]
fn sequence_codec_round_trips() {
    for v in [0u64, 1, 255, 256, 1 << 40, u64::MAX] {
        let bytes = encode_u64(v);
        assert_eq!(bytes.len(), 8);
        assert_eq!(decode_u64(&bytes), v);
    }
    assert_eq!(encode_u64(258), vec![0, 0, 0, 0, 0, 0, 1, 2]);
    assert_eq!(decode_u64(&[1, 2, 3]), 0);
}

fn entity(entity_type: &str, entity_id: &str) -> EntityRef {
    EntityRef {
        entity_type: entity_type.into(),
        entity_id: entity_id.into(),
        namespace: Some("test".into()),
        version: None,
    }
}

fn relationship(relationship_type: &str, from: EntityRef, to: EntityRef) -> RelationshipInstance {
    RelationshipInstance {
        relationship: RelationshipRef { relationship_type: relationship_type.into(), from, to },
        metadata_json: None,
        provenance: Some("test".into()),
    }
}

fn namespace() -> SorNamespace {
    SorNamespace { tenant_id: "tenant/acme".into(), sor_id: "contracts".into(), environment_id: None }
}

fn canonical_entity(revision: u64) -> CanonicalEntityRecord {
    CanonicalEntityRecord {
        namespace: namespace(),
        entity_type: "Contract".into(),
        entity_id: "contract-001".into(),
        canonical_version: "2026-05-22".into(),
        revision,
        data_json: format!("{{\"revision\":{revision},\"status\":\"active\"}}"),
        created_at: "2026-05-22T10:00:00Z".into(),
        updated_at: "2026-05-22T11:00:00Z".into(),
    }
}

fn canonical_event(sequence: u64, idempotency_key: Option<&str>) -> SorEventRecord {
    let entity = canonical_entity(sequence);
    SorEventRecord {
        namespace: entity.namespace.clone(),
        event_id: format!("evt-{sequence:03}"),
        stream_id: "Contract/contract-001".into(),
        sequence,
        event_type: "contract.updated".into(),
        entity_ref: entity.entity_ref(),
        command_id: Some(format!("cmd-{sequence:03}")),
        idempotency_key: idempotency_key.map(str::to_owned),
        actor: Some("test".into()),
        source_view_version: Some("view-v1".into()),
        canonical_version: entity.canonical_version,
        payload_json: format!("{{\"sequence\":{sequence}}}"),
        timestamp: "2026-05-22T11:00:00Z".into(),
    }
}

#[test]
fn foundationdb_provider_advertises_event_capabilities() {
    let provider = FoundationDbProvider::for_tests();
    let metadata = provider.metadata();
    assert!(metadata.supports(ProviderCapability::EventAppend));
    assert!(metadata.supports(ProviderCapability::ProjectionCheckpoint));
    assert!(metadata.supports(ProviderCapability::ProjectionPut));
    assert!(metadata.supports(ProviderCapability::EntityRead));
    assert!(metadata.supports(ProviderCapability::RelationshipQuery));
    assert!(metadata.supports(ProviderCapability::PathFind));
    assert!(metadata.supports(ProviderCapability::MetricAggregateCount));
    assert!(metadata.supports(ProviderCapability::MetricAggregateDistinctCount));
    assert!(metadata.supports(ProviderCapability::MetricDimensionGroupBy));
    assert!(metadata.supports(ProviderCapability::MetricTimeBucketMonth));
    assert!(metadata
        .ontology_capabilities
        .as_ref()
        .is_some_and(|capabilities| capabilities.supports_path_find));
}

#[test]
fn foundationdb_provider_reports_health_and_pack_metadata() {
    let provider = FoundationDbProvider::for_tests();
    assert!(provider.health().is_ok());
    assert!(provider
        .validate_config(Ok(FoundationDbConfig {
            cluster_file: "/tmp/fdb.cluster".into(),
            tenant_prefix: "tenant/demo".into(),
        }))
        .is_ok());
    assert!(provider.validate_config(Err("missing field `cluster_file`".into())).is_err());

    let manifest = pack_manifest();
    let entry = catalog_entry();

    assert_eq!(manifest.provider_id, entry.provider_id);
    assert!(manifest.capabilities.contains(&ProviderCapability::MetricAggregateCount));
    assert!(manifest.capabilities.contains(&ProviderCapability::MetricTimeBucketMonth));
    assert!(entry.capabilities.contains(&ProviderCapability::MetricAggregateCount));
    assert!(entry.capabilities.contains(&ProviderCapability::MetricDimensionGroupBy));
    assert_eq!(manifest.provider_version, "0.1.8");
    assert_eq!(
        manifest.oci_reference.as_deref(),
        Some("oci://ghcr.io/greenticai/sorla-providers/foundationdb:0.1.8")
    );
    assert_eq!(provider.pack_emission().artifact_ref, "file://generated/provider-foundationdb.gtpack");
    assert_eq!(manifest.runtime_components.len(), 1);
}

#[test]
fn config_with_blank_fields_is_refused() {
    let provider = FoundationDbProvider::for_tests();
    let blank = provider.validate_config(Ok(FoundationDbConfig {
        cluster_file: "  ".into(),
        tenant_prefix: "tenant/demo".into(),
    }));
    assert!(matches!(blank, Err(ProviderError::Validation(_))));
}

#[test]
fn append_and_read_events_follow_expected_revision() {
    let mut provider = FoundationDbProvider::for_tests();

    let first = provider
        .append_event(AppendEventRequest {
            stream_id: "building-123".into(),
            event_type: "building.created".into(),
            payload: "{\"building_id\":\"building-123\"}".into(),
            expected_revision: Some(0),
        })
        .expect("append should succeed");

    let second = provider
        .append_event(AppendEventRequest {
            stream_id: "building-123".into(),
            event_type: "building.updated".into(),
            payload: "{\"title\":\"Tower A\"}".into(),
            expected_revision: Some(1),
        })
        .expect("second append should succeed");

    assert_eq!(first.revision, 1);
    assert_eq!(second.revision, 2);

    let events = provider
        .read_event_stream(EventStreamRequest { stream_id: "building-123".into(), from_revision: 1, limit: 10 })
        .expect("stream read should succeed");

    assert_eq!(events.len(), 2);
    assert_eq!(events[0].event_type, "building.created");
    assert_eq!(events[1].event_type, "building.updated");

    let conflict = provider.append_event(AppendEventRequest {
        stream_id: "building-123".into(),
        event_type: "building.conflict".into(),
        payload: "{}".into(),
        expected_revision: Some(0),
    });
    assert!(conflict.is_err());
}

#[test]
fn appended_revisions_count_up_from_one() {
    let mut provider = FoundationDbProvider::for_tests();
    for n in 1..=5u64 {
        let record = provider
            .append_event(AppendEventRequest {
                stream_id: "s".into(),
                event_type: "t".into(),
                payload: "{}".into(),
                expected_revision: None,
            })
            .unwrap();
        assert_eq!(record.revision, n);
    }
    let tail = provider
        .read_event_stream(EventStreamRequest { stream_id: "s".into(), from_revision: 4, limit: 10 })
        .unwrap();
    assert_eq!(tail.iter().map(|e| e.revision).collect::<Vec<_>>(), vec![4, 5]);
    let limited = provider
        .read_event_stream(EventStreamRequest { stream_id: "s".into(), from_revision: 0, limit: 2 })
        .unwrap();
    assert_eq!(limited.iter().map(|e| e.revision).collect::<Vec<_>>(), vec![1, 2]);
    let other = provider
        .read_event_stream(EventStreamRequest { stream_id: "missing".into(), from_revision: 0, limit: 2 })
        .unwrap();
    assert!(other.is_empty());
    let refused = provider.append_event(AppendEventRequest {
        stream_id: "s".into(),
        event_type: "t".into(),
        payload: "{}".into(),
        expected_revision: Some(4),
    });
    assert_eq!(
        refused,
        Err(ProviderError::Validation("expected revision 4 did not match stream revision 5".into()))
    );
}

#[test]
fn projections_can_be_persisted_read_and_rebuilt() {
    let mut provider = FoundationDbProvider::for_tests();

    provider
        .append_event(AppendEventRequest {
            stream_id: "building-123".into(),
            event_type: "building.created".into(),
            payload: "{\"building_id\":\"building-123\"}".into(),
            expected_revision: Some(0),
        })
        .expect("append should succeed");
    provider
        .append_event(AppendEventRequest {
            stream_id: "building-123".into(),
            event_type: "building.checked".into(),
            payload: "{\"status\":\"ok\"}".into(),
            expected_revision: Some(1),
        })
        .expect("append should succeed");

    let projection = provider
        .persist_projection(PersistProjectionRequest {
            projection_name: "building-summary".into(),
            projection_key: "building-123".into(),
            state_json: "{\"status\":\"ok\"}".into(),
            last_applied_revision: 2,
        })
        .expect("projection persist should succeed");

    let stored = provider
        .get_projection("building-summary", "building-123")
        .expect("projection read should succeed")
        .expect("projection should exist");
    let checkpoint = provider
        .projection_checkpoint("building-summary", "building-123")
        .expect("checkpoint read should succeed")
        .expect("checkpoint should exist");
    let rebuilt = provider
        .rebuild_projection(ProjectionRebuildRequest {
            projection_name: "building-summary".into(),
            from_checkpoint: Some(checkpoint.checkpoint_token.clone()),
        })
        .expect("rebuild should succeed");

    assert_eq!(projection.last_applied_revision, 2);
    assert_eq!(stored.state_json, "{\"status\":\"ok\"}");
    assert_eq!(checkpoint.checkpoint_token, "building-summary@2");
    assert_eq!(rebuilt.checkpoint_token, "building-summary@2");

    let from_scratch = provider
        .rebuild_projection(ProjectionRebuildRequest { projection_name: "building-summary".into(), from_checkpoint: None })
        .unwrap();
    assert_eq!(from_scratch.checkpoint_token, "building-summary@2");
    let unreadable = provider
        .rebuild_projection(ProjectionRebuildRequest {
            projection_name: "building-summary".into(),
            from_checkpoint: Some("building-summary@x".into()),
        })
        .unwrap();
    assert_eq!(unreadable.checkpoint_token, "building-summary@2");
    assert!(provider.get_projection("building-summary", "other").unwrap().is_none());
}

#[test]
fn keyspace_layout_is_stable_and_documented() {
    let provider = FoundationDbProvider::new(FoundationDbConfig {
        cluster_file: "/etc/foundationdb/fdb.cluster".into(),
        tenant_prefix: "tenant/acme".into(),
    });

    let layout = provider.keyspace_layout();
    let prefixes = [
        layout.events_prefix,
        layout.projections_prefix,
        layout.indexes_prefix,
        layout.metadata_prefix,
        layout.checkpoints_prefix,
        layout.compatibility_prefix,
        layout.ontology_model_prefix,
        layout.entities_prefix,
        layout.relationships_prefix,
        layout.relationship_from_index_prefix,
        layout.relationship_to_index_prefix,
        layout.evidence_links_prefix,
    ];

    let unique = prefixes.iter().collect::<std::collections::BTreeSet<_>>();
    assert_eq!(prefixes.len(), unique.len());
    assert!(prefixes.iter().all(|prefix| prefix.starts_with("tenant/acme/")));
}

#[test]
fn canonical_keyspace_layout_uses_sorx_namespace_without_environment() {
    let prod = SorNamespace { tenant_id: "tenant/acme".into(), sor_id: "contracts".into(), environment_id: None };
    let dev = SorNamespace { environment_id: Some("dev".into()), ..prod.clone() };

    assert_eq!(encode_key_segment("tenant/acme"), "tenant%2Facme");
    let prod_layout = FoundationDbProvider::canonical_keyspace_layout(&prod);
    let dev_layout = FoundationDbProvider::canonical_keyspace_layout(&dev);

    assert_eq!(prod_layout, dev_layout);
    assert_eq!(prod_layout.current_schema_key, "/sorx/tenant%2Facme/contracts/meta/current_schema");
    assert_eq!(prod_layout.entity_versions_prefix, "/sorx/tenant%2Facme/contracts/entity_versions");
    assert_eq!(prod_layout.deployments_prefix, "/sorx/tenant%2Facme/contracts/deployments");
}

#[test]
fn entities_can_be_inserted_read_and_searched() {
    let mut provider = FoundationDbProvider::for_tests();
    let customer = EntityRecord {
        entity: entity("Customer", "customer-001"),
        label: Some("Acme Customer".into()),
        metadata_json: Some(r#"{"segment":"enterprise"}"#.into()),
    };

    provider.upsert_entity(customer.clone()).expect("entity upsert should succeed");
    let stored = provider
        .get_entity(customer.entity.clone())
        .expect("entity read should succeed")
        .expect("entity should exist");
    let found = provider
        .search_entities(EntitySearchQuery {
            entity_types: vec!["Customer".into()],
            query: Some("Acme".into()),
            namespace: Some("test".into()),
            metadata_json: None,
            limit: 10,
        })
        .expect("entity search should succeed");

    assert_eq!(stored, customer);
    assert_eq!(found, vec![customer]);
}

#[test]
fn canonical_entities_can_be_upserted_read_and_projected_to_generic_entities() {
    let mut provider = FoundationDbProvider::for_tests();
    let record = canonical_entity(1);

    provider.upsert_canonical_entity(record.clone()).expect("canonical upsert should succeed");
    let stored = provider
        .get_canonical_entity(record.namespace.clone(), &record.entity_type, &record.entity_id)
        .expect("canonical read should succeed")
        .expect("canonical entity should exist");
    let generic = provider
        .get_entity(record.entity_ref())
        .expect("generic read should succeed")
        .expect("generic entity projection should exist");

    assert_eq!(stored, record);
    assert_eq!(generic.metadata_json, Some(record.data_json.to_string()));
}

#[test]
fn canonical_write_atomically_appends_event_updates_projection_and_edges() {
    let mut provider = FoundationDbProvider::for_tests();
    let record = canonical_entity(1);
    let document = entity("EvidenceDocument", "doc-001");
    let relationship = relationship("supported_by", record.entity_ref(), document.clone());
    let link = EntityLink {
        entity: document.clone(),
        source_ref: "sharepoint://tenant/acme/document/doc-001".into(),
        evidence_id: Some("evidence-001".into()),
        confidence: 1.0f32.to_bits(),
        match_kind: "external-id".into(),
        provenance: "test".into(),
        metadata_json: None,
    };

    let result = provider
        .apply_canonical_write(CanonicalWriteRequest {
            event: canonical_event(1, Some("idem-001")),
            entity: record.clone(),
            relationships: vec![relationship.clone()],
            entity_links: vec![link.clone()],
        })
        .expect("canonical write should succeed");

    assert_eq!(result.relationships_written, 1);
    assert_eq!(result.entity_links_written, 1);
    assert_eq!(
        provider
            .get_canonical_entity(record.namespace.clone(), &record.entity_type, &record.entity_id)
            .expect("read should succeed"),
        Some(record.clone())
    );
    assert_eq!(
        provider
            .query_relationships(RelationshipQuery {
                root_entities: vec![document],
                relationship_type: Some("supported_by".into()),
                direction: RelationshipDirection::Incoming,
                max_depth: Some(1),
                limit: 10,
            })
            .expect("reverse edge lookup should succeed"),
        vec![relationship]
    );
    assert_eq!(
        provider
            .link_entities(EntityLinkRequest {
                source_ref: Some(link.source_ref.clone()),
                evidence_id: link.evidence_id.clone(),
                content_json: None,
                candidate_types: vec![],
                ontology_scope: None,
            })
            .expect("link lookup should succeed"),
        vec![link]
    );
}

#[test]
fn canonical_write_rejects_duplicate_idempotency_without_partial_projection() {
    let mut provider = FoundationDbProvider::for_tests();
    provider
        .apply_canonical_write(CanonicalWriteRequest {
            event: canonical_event(1, Some("idem-001")),
            entity: canonical_entity(1),
            relationships: vec![],
            entity_links: vec![],
        })
        .expect("first write should succeed");

    let duplicate = provider.apply_canonical_write(CanonicalWriteRequest {
        event: canonical_event(2, Some("idem-001")),
        entity: canonical_entity(2),
        relationships: vec![],
        entity_links: vec![],
    });
    let stored = provider
        .get_canonical_entity(namespace(), "Contract", "contract-001")
        .expect("canonical read should succeed")
        .expect("canonical entity should exist");

    assert!(duplicate.is_err());
    assert_eq!(stored.revision, 1);
    assert_eq!(
        duplicate.unwrap_err(),
        ProviderError::Validation("idempotency key idem-001 was already applied".into())
    );
}

#[test]
fn canonical_write_guards_report_their_reason() {
    let mut provider = FoundationDbProvider::for_tests();
    let out_of_order = provider.apply_canonical_write(CanonicalWriteRequest {
        event: canonical_event(2, None),
        entity: canonical_entity(2),
        relationships: vec![],
        entity_links: vec![],
    });
    assert_eq!(
        out_of_order,
        Err(ProviderError::Validation("event sequence 2 did not follow stream sequence 0".into()))
    );

    let mut foreign = canonical_entity(1);
    foreign.namespace.sor_id = "other".into();
    let mismatched = provider.apply_canonical_write(CanonicalWriteRequest {
        event: canonical_event(1, None),
        entity: foreign,
        relationships: vec![],
        entity_links: vec![],
    });
    assert_eq!(
        mismatched,
        Err(ProviderError::Validation("event and entity namespaces must match".into()))
    );

    let mut elsewhere = canonical_event(1, None);
    elsewhere.entity_ref.entity_id = "contract-002".into();
    let mistargeted = provider.apply_canonical_write(CanonicalWriteRequest {
        event: elsewhere,
        entity: canonical_entity(1),
        relationships: vec![],
        entity_links: vec![],
    });
    assert_eq!(
        mistargeted,
        Err(ProviderError::Validation("event entity_ref must target the canonical entity".into()))
    );
    assert!(provider.get_canonical_entity(namespace(), "Contract", "contract-001").unwrap().is_none());
}

#[test]
fn relationships_query_by_direction_and_type() {
    let mut provider = FoundationDbProvider::for_tests();
    let customer = entity("Customer", "customer-001");
    let contract = entity("Contract", "contract-001");
    let asset = entity("Asset", "asset-001");

    provider
        .upsert_relationship(relationship("has_contract", customer.clone(), contract.clone()))
        .expect("relationship upsert should succeed");
    provider
        .upsert_relationship(relationship("governs", contract.clone(), asset))
        .expect("relationship upsert should succeed");

    let outgoing = provider
        .query_relationships(RelationshipQuery {
            root_entities: vec![customer.clone()],
            relationship_type: Some("has_contract".into()),
            direction: RelationshipDirection::Outgoing,
            max_depth: Some(1),
            limit: 10,
        })
        .expect("outgoing query should succeed");
    let incoming = provider
        .query_relationships(RelationshipQuery {
            root_entities: vec![contract.clone()],
            relationship_type: Some("has_contract".into()),
            direction: RelationshipDirection::Incoming,
            max_depth: Some(1),
            limit: 10,
        })
        .expect("incoming query should succeed");

    assert_eq!(outgoing.len(), 1);
    assert_eq!(incoming.len(), 1);
    assert_eq!(outgoing[0], incoming[0]);

    let both = provider
        .query_relationships(RelationshipQuery {
            root_entities: vec![contract],
            relationship_type: None,
            direction: RelationshipDirection::Both,
            max_depth: None,
            limit: 1,
        })
        .unwrap();
    assert_eq!(both.len(), 1);
}

#[test]
fn path_finding_is_bounded_cycle_safe_and_stable() {
    let mut provider = FoundationDbProvider::for_tests();
    let customer = entity("Customer", "customer-001");
    let contract = entity("Contract", "contract-001");
    let asset = entity("Asset", "asset-001");
    let evidence = entity("EvidenceDocument", "doc-001");

    for item in [
        relationship("has_contract", customer.clone(), contract.clone()),
        relationship("governs", contract.clone(), asset.clone()),
        relationship("supports", asset.clone(), evidence.clone()),
        relationship("cycles_to", asset.clone(), customer.clone()),
    ] {
        provider.upsert_relationship(item).expect("relationship upsert should succeed");
    }

    let paths = provider
        .find_paths(PathQuery {
            from: customer.clone(),
            to: evidence.clone(),
            relationship_types: vec![],
            max_depth: 4,
            limit: 10,
        })
        .expect("path finding should succeed");
    let too_shallow = provider
        .find_paths(PathQuery { from: customer, to: evidence, relationship_types: vec![], max_depth: 2, limit: 10 })
        .expect("path finding should succeed");

    assert_eq!(paths.len(), 1);
    assert_eq!(paths[0].steps.len(), 3);
    assert!(too_shallow.is_empty());
}

#[test]
fn backend_dispatch_in_memory_path_applies_canonical_write() {
    let mut provider = FoundationDbProvider::for_tests();
    let ns = namespace();
    let result = provider
        .apply_canonical_write(CanonicalWriteRequest {
            event: canonical_event(1, None),
            entity: canonical_entity(1),
            relationships: vec![],
            entity_links: vec![],
        })
        .expect("in-memory backend dispatch should succeed");
    assert_eq!(result.relationships_written, 0);
    assert_eq!(result.entity_links_written, 0);
    assert_eq!(result.entity.namespace, ns);
}

#[test]
fn evidence_links_are_persisted_and_queryable() {
    let mut provider = FoundationDbProvider::for_tests();
    let document = entity("EvidenceDocument", "doc-001");
    let link = EntityLink {
        entity: document.clone(),
        source_ref: "sharepoint://tenant/demo/document/doc-001".into(),
        evidence_id: Some("evidence-001".into()),
        confidence: 1.0f32.to_bits(),
        match_kind: "external-id".into(),
        provenance: "test".into(),
        metadata_json: None,
    };

    provider.upsert_evidence_link(link.clone()).expect("link upsert should succeed");
    provider.upsert_evidence_link(link.clone()).expect("second upsert should succeed");
    let by_entity = provider.evidence_links_for_entity(&document).expect("links should query by entity");
    let by_request = provider
        .link_entities(EntityLinkRequest {
            source_ref: Some(link.source_ref.clone()),
            evidence_id: None,
            content_json: None,
            candidate_types: vec!["EvidenceDocument".into()],
            ontology_scope: None,
        })
        .expect("links should query by request");

    assert_eq!(by_entity, vec![link.clone()]);
    assert_eq!(by_request, vec![link]);
}

#[test]
fn ontology_smoke_graph_has_one_direct_edge_and_one_two_step_path() {
    let mut provider = FoundationDbProvider::for_tests();
    let customer = entity("Customer", "customer-001");
    let contract = entity("Contract", "contract-001");
    let asset = entity("Asset", "asset-001");
    let evidence = entity("EvidenceDocument", "doc-001");

    for item in [&customer, &contract, &asset, &evidence] {
        provider
            .upsert_entity(EntityRecord {
                entity: item.clone(),
                label: Some(format!("{} {}", item.entity_type, item.entity_id)),
                metadata_json: None,
            })
            .expect("entity upsert should succeed");
    }
    for item in [
        relationship("has_contract", customer.clone(), contract.clone()),
        relationship("governs", contract.clone(), asset.clone()),
        relationship("has_evidence", contract.clone(), evidence.clone()),
    ] {
        provider.upsert_relationship(item).expect("relationship upsert should succeed");
    }

    let direct = provider
        .query_relationships(RelationshipQuery {
            root_entities: vec![customer.clone()],
            relationship_type: Some("has_contract".into()),
            direction: RelationshipDirection::Outgoing,
            max_depth: Some(1),
            limit: 10,
        })
        .expect("relationship query should succeed");
    assert_eq!(direct.len(), 1);

    let paths = provider
        .find_paths(PathQuery { from: customer, to: evidence, relationship_types: vec![], max_depth: 3, limit: 10 })
        .expect("path finding should succeed");
    assert_eq!(paths.len(), 1);
    assert_eq!(paths[0].steps.len(), 2);
}

#[test]
fn ontology_smoke_graph_reports_one_path() {
    assert_eq!(sorla_providers::ontology_smoke::smoke_foundationdb_graph(), Ok(1));
}

#[test]
fn reading_from_an_appended_revision_returns_that_event_alone() {
    let mut provider = FoundationDbProvider::for_tests();
    for event_type in ["order.placed", "order.paid", "order.shipped"] {
        provider
            .append_event(AppendEventRequest {
                stream_id: "order-7".into(),
                event_type: event_type.into(),
                payload: "{}".into(),
                expected_revision: None,
            })
            .expect("append should succeed");
    }
    let events = provider
        .read_event_stream(EventStreamRequest { stream_id: "order-7".into(), from_revision: 3, limit: 5 })
        .expect("stream read should succeed");
    assert_eq!(events.len(), 1);
    assert_eq!(events[0].revision, 3);
    assert_eq!(events[0].event_type, "order.shipped");
}

#[test]
fn path_limit_is_checked_before_each_expansion() {
    let mut provider = FoundationDbProvider::for_tests();
    let from = entity("Customer", "customer-002");
    let to = entity("Contract", "contract-002");
    provider.upsert_relationship(relationship("signed", from.clone(), to.clone())).expect("upsert");
    provider.upsert_relationship(relationship("owns", from.clone(), to.clone())).expect("upsert");
    let none = provider
        .find_paths(PathQuery { from: from.clone(), to: to.clone(), relationship_types: vec![], max_depth: 2, limit: 0 })
        .expect("path finding should succeed");
    assert!(none.is_empty());
    let one_expansion = provider
        .find_paths(PathQuery { from, to, relationship_types: vec![], max_depth: 2, limit: 1 })
        .expect("path finding should succeed");
    assert_eq!(one_expansion.len(), 2);
}

#[test]
fn a_revision_mismatch_names_both_revisions() {
    let mut provider = FoundationDbProvider::for_tests();
    let refused = provider.append_event(AppendEventRequest {
        stream_id: "order-8".into(),
        event_type: "order.placed".into(),
        payload: "{}".into(),
        expected_revision: Some(4),
    });
    assert_eq!(
        refused,
        Err(ProviderError::Validation("expected revision 4 did not match stream revision 0".into()))
    );
}

#[test]
fn keyspace_laws_hold_on_sample_keys() {
    let ks = FdbKeyspace::new(&ns());
    let encoded = encode_key_segment("a/b:c d%é");
    assert!(encoded.chars().all(|c| c.is_ascii_alphanumeric() || "-_.%".contains(c)));
    assert!(!encoded.contains(':') && !encoded.contains('/'));
    assert_eq!(encoded, "a%2Fb%3Ac%20d%25%C3%A9");

    assert!(encode_u64(255) < encode_u64(256));
    assert!(encode_u64(u64::MAX - 1) < encode_u64(u64::MAX));

    let (lo, hi) = ks.canonical_event_stream_range("orders");
    let other = ks.canonical_event_key("orders-2", 5);
    let nested = ks.canonical_event_key("orders/1", 5);
    assert!(!(lo <= other && other < hi));
    assert!(!(lo <= nested && nested < hi));
    assert!(lo < ks.canonical_event_key("orders", 5) && ks.canonical_event_key("orders", 5) < hi);

    assert_ne!(ks.edge_in_key("owns", "a", "b"), ks.edge_out_key("owns", "b", "a"));
    assert_ne!(ks.edge_in_key("owns", "a", "b"), ks.idempotency_key("owns"));
    assert_ne!(ks.entity_link_key("e", "s", "m"), ks.entity_link_key("e", "s2", "m"));
}

#[test]
fn stream_reads_start_after_the_given_sequence() {
    let ks = FdbKeyspace::new(&ns());
    let (lo, hi) = stream_read_range(&ns(), "orders", 2).expect("a range");
    assert_eq!(lo, ks.canonical_event_key("orders", 3));
    assert_eq!(hi, ks.canonical_event_stream_range("orders").1);
    assert!(stream_read_range(&ns(), "orders", u64::MAX).is_none());
}

fn run_write_steps(
    req: &CanonicalWriteRequest,
    db: &mut std::collections::BTreeMap<Vec<u8>, Vec<u8>>,
) -> FdbWriteStep {
    let mut step = canonical_write_begin(req);
    loop {
        step = match step {
            FdbWriteStep::CheckIdempotency(key) => canonical_write_after_idempotency(req, db.contains_key(&key)),
            FdbWriteStep::ReadHead(key) => canonical_write_after_head(req, db.get(&key).cloned()),
            FdbWriteStep::Commit(plan) => {
                for write in &plan {
                    let bytes = match &write.value {
                        FdbWriteValue::EventId(b) | FdbWriteValue::Head(b) => b.clone(),
                        _ => b"record".to_vec(),
                    };
                    db.insert(write.key.clone(), bytes);
                }
                return FdbWriteStep::Commit(plan);
            }
            done => return done,
        };
    }
}

#[test]
fn cluster_write_steps_store_all_or_nothing() {
    let ks = FdbKeyspace::new(&namespace());
    let mut db = std::collections::BTreeMap::new();
    db.insert(b"unrelated".to_vec(), b"kept".to_vec());
    let first = CanonicalWriteRequest {
        event: canonical_event(1, Some("idem-1")),
        entity: canonical_entity(1),
        relationships: vec![],
        entity_links: vec![],
    };
    assert!(matches!(run_write_steps(&first, &mut db), FdbWriteStep::Commit(_)));
    let head = ks.canonical_event_head_key("Contract/contract-001");
    assert_eq!(db.get(&head), Some(&encode_u64(1)));
    assert_eq!(db.get(&ks.idempotency_key("idem-1")), Some(&b"evt-001".to_vec()));
    assert!(db.contains_key(&ks.canonical_event_key("Contract/contract-001", 1)));
    assert!(db.contains_key(&ks.canonical_entity_key("Contract", "contract-001")));
    assert_eq!(db.get(&b"unrelated".to_vec()), Some(&b"kept".to_vec()));
    assert_eq!(db.len(), 5);
    let result = canonical_write_committed(&first);
    assert_eq!(result.event, first.event);
    assert_eq!(result.relationships_written, 0);

    let snapshot = db.clone();
    let replay = CanonicalWriteRequest {
        event: canonical_event(2, Some("idem-1")),
        entity: canonical_entity(2),
        relationships: vec![],
        entity_links: vec![],
    };
    assert!(matches!(
        run_write_steps(&replay, &mut db),
        FdbWriteStep::Refused(FdbWriteRefusal::DuplicateIdempotency(k)) if k == "idem-1"
    ));
    assert_eq!(db, snapshot);

    let skipped = CanonicalWriteRequest {
        event: canonical_event(3, None),
        entity: canonical_entity(3),
        relationships: vec![],
        entity_links: vec![],
    };
    assert!(matches!(
        run_write_steps(&skipped, &mut db),
        FdbWriteStep::Refused(FdbWriteRefusal::SequenceConflict { expected: 2, actual: 3 })
    ));
    assert_eq!(db, snapshot);
}

#[test]
fn cluster_stream_read_returns_the_events_after_from() {
    let ks = FdbKeyspace::new(&namespace());
    let mut db = std::collections::BTreeMap::new();
    for sequence in 1..=5u64 {
        let mut event = canonical_event(sequence, None);
        event.stream_id = "orders".into();
        db.insert(ks.canonical_event_key("orders", sequence), event);
        let mut other = canonical_event(sequence, None);
        other.stream_id = "orders-2".into();
        db.insert(ks.canonical_event_key("orders-2", sequence), other);
    }
    let (lo, hi) = stream_read_range(&namespace(), "orders", 2).expect("a range");
    let limit = 2usize;
    let read: Vec<SorEventRecord> =
        db.range(lo..hi).take(limit.max(1)).map(|(_, event)| event.clone()).collect();
    let slice = select_stream_events(read, 2, limit);
    assert_eq!(slice.iter().map(|e| e.sequence).collect::<Vec<_>>(), vec![3, 4]);
    assert!(slice.iter().all(|e| e.stream_id == "orders"));
}

#[test]
fn path_search_stops_before_the_next_walk_once_limit_is_reached() {
    let mut provider = FoundationDbProvider::for_tests();
    let from = entity("Customer", "customer-003");
    let via = entity("Account", "account-003");
    let to = entity("Contract", "contract-003");
    provider.upsert_relationship(relationship("signed", from.clone(), to.clone())).expect("upsert");
    provider.upsert_relationship(relationship("holds", from.clone(), via.clone())).expect("upsert");
    provider.upsert_relationship(relationship("covers", via.clone(), to.clone())).expect("upsert");
    let query = |limit: usize| PathQuery {
        from: from.clone(),
        to: to.clone(),
        relationship_types: vec![],
        max_depth: 2,
        limit,
    };
    let first_level = provider.find_paths(query(1)).expect("path finding should succeed");
    assert_eq!(first_level.len(), 1);
    assert_eq!(first_level[0].steps.len(), 1);
    assert_eq!(first_level[0].steps[0].relationship.relationship_type, "signed");
    let both = provider.find_paths(query(2)).expect("path finding should succeed");
    assert_eq!(both.len(), 2);
    assert_eq!(both[0].steps[0].relationship.relationship_type, "holds");
    assert_eq!(both[1].steps[0].relationship.relationship_type, "signed");
}
