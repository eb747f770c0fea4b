//! The provider contract: one trait per capability family. Each provider of
//! this crate states, on its own impl, what its methods return.
use vstd::prelude::*;

use crate::types::{
    AppendEventRequest, CanonicalEntityRecord, CanonicalWriteRequest, CanonicalWriteResult,
    EntityLink, EntityLinkRequest, EntityRecord, EntityRef, EntitySearchQuery, EventRecord,
    EventStreamRequest, ExternalReferencePayload, ExternalReferenceRequest, HealthReport,
    OntologyPath, PackEmission, PathQuery, PersistProjectionRequest, ProjectionCheckpoint,
    ProjectionRebuildRequest, ProjectionRecord, ProviderError, ProviderMetadata,
    RelationshipInstance, RelationshipQuery, SorNamespace,
};

verus! {

/// Exposes stable provider identity and capability metadata.
pub trait ProviderMetadataSource {
    fn metadata(&self) -> ProviderMetadata;

    fn pack_emission(&self) -> PackEmission;
}

/// Reports provider health.
pub trait ProviderHealth {
    fn health(&self) -> Result<HealthReport, ProviderError>;
}

/// Validates provider configuration. The configuration arrives as the outcome
/// of parsing the provider's JSON document: the parsed value, or the parser's
/// message.
pub trait ConfigValidator {
    type Config;

    fn validate_config(&self, parsed: Result<Self::Config, String>) -> Result<(), ProviderError>;
}

/// Event-native provider capabilities.
pub trait EventStoreProvider {
    fn append_event(&mut self, request: AppendEventRequest) -> Result<EventRecord, ProviderError>;

    fn read_event_stream(&self, request: EventStreamRequest) -> Result<
        Vec<EventRecord>,
        ProviderError,
    >;
}

/// Projection read and rebuild capabilities.
pub trait ProjectionProvider {
    fn persist_projection(&mut self, request: PersistProjectionRequest) -> Result<
        ProjectionRecord,
        ProviderError,
    >;

    fn get_projection(&self, projection_name: &str, projection_key: &str) -> Result<
        Option<ProjectionRecord>,
        ProviderError,
    >;

    fn rebuild_projection(&self, request: ProjectionRebuildRequest) -> Result<
        ProjectionCheckpoint,
        ProviderError,
    >;
}

/// External source-of-record resolution capabilities.
pub trait ExternalReferenceProvider {
    fn resolve_external_reference(&self, request: ExternalReferenceRequest) -> Result<
        ExternalReferencePayload,
        ProviderError,
    >;
}

/// Generic ontology entity storage capabilities.
pub trait EntityStoreProvider {
    fn upsert_entity(&mut self, entity: EntityRecord) -> Result<EntityRecord, ProviderError>;

    fn get_entity(&self, entity: EntityRef) -> Result<Option<EntityRecord>, ProviderError>;

    fn search_entities(&self, request: EntitySearchQuery) -> Result<
        Vec<EntityRecord>,
        ProviderError,
    >;
}

/// Canonical SORX entity storage capabilities, beside the generic entity store.
pub trait CanonicalEntityStoreProvider {
    fn upsert_canonical_entity(&mut self, record: CanonicalEntityRecord) -> Result<
        CanonicalEntityRecord,
        ProviderError,
    >;

    fn get_canonical_entity(
        &self,
        namespace: SorNamespace,
        entity_type: &str,
        entity_id: &str,
    ) -> Result<Option<CanonicalEntityRecord>, ProviderError>;
}

/// Atomic canonical SORX write capabilities.
pub trait CanonicalWriteProvider {
    fn apply_canonical_write(&mut self, request: CanonicalWriteRequest) -> Result<
        CanonicalWriteResult,
        ProviderError,
    >;
}

/// Generic ontology graph traversal capabilities.
pub trait OntologyGraphProvider {
    fn query_relationships(&self, request: RelationshipQuery) -> Result<
        Vec<RelationshipInstance>,
        ProviderError,
    >;

    fn find_paths(&self, request: PathQuery) -> Result<Vec<OntologyPath>, ProviderError>;
}

/// Links external content and evidence to generic ontology entities.
pub trait EntityLinkProvider {
    fn link_entities(&self, request: EntityLinkRequest) -> Result<Vec<EntityLink>, ProviderError>;
}

/// Validates provider-specific external mapping documents. The mapping
/// arrives as the outcome of parsing its JSON document.
pub trait ExternalMappingProvider {
    type Mapping;

    fn validate_mapping(&self, parsed: Result<Self::Mapping, String>) -> Result<(), ProviderError>;
}

} // verus!
