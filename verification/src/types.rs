//! Shared provider contract types: identity and compatibility metadata,
//! event and projection records, canonical source-of-record records and the
//! generic ontology request/response shapes.
use vstd::prelude::*;

use crate::text::{owned, push_char, push_str};

verus! {

/// Canonical contract version for SoRLa provider implementations.
pub const SORLA_PROVIDER_CONTRACT_VERSION: &'static str = "0.1.0";

/// Shared error model for provider contract implementations.
#[derive(Debug, PartialEq, Eq)]
pub enum ProviderError {
    Validation(String),
    Unsupported(&'static str),
    NotImplemented(&'static str),
    UnsupportedMetricCapability(String),
    UnknownMetricSource(String),
    UnknownMetricField(String),
    InvalidMetricFilter(String),
    MetricExecutionFailed(String),
}

impl Clone for ProviderError {
    fn clone(&self) -> (r: Self)
        ensures
            r == *self,
    {
        match self {
            ProviderError::Validation(m) => ProviderError::Validation(m.clone()),
            ProviderError::Unsupported(m) => ProviderError::Unsupported(m),
            ProviderError::NotImplemented(m) => ProviderError::NotImplemented(m),
            ProviderError::UnsupportedMetricCapability(m) => ProviderError::UnsupportedMetricCapability(m.clone()),
            ProviderError::UnknownMetricSource(m) => ProviderError::UnknownMetricSource(m.clone()),
            ProviderError::UnknownMetricField(m) => ProviderError::UnknownMetricField(m.clone()),
            ProviderError::InvalidMetricFilter(m) => ProviderError::InvalidMetricFilter(m.clone()),
            ProviderError::MetricExecutionFailed(m) => ProviderError::MetricExecutionFailed(m.clone()),
        }
    }
}

/// Stable SoRLa provider capability list for lock-phase contracts.
#[derive(Debug, Clone, Copy, PartialEq, Eq, Structural)]
pub enum ProviderCapability {
    EventAppend,
    EventStreamRead,
    CanonicalState,
    CanonicalWrite,
    ProjectionGet,
    ProjectionPut,
    ProjectionRebuild,
    ProjectionCheckpoint,
    ExternalReferenceResolve,
    EvidenceQuery,
    EvidenceResolve,
    HealthCheck,
    ConfigValidate,
    PackMetadataEmit,
    OntologyModelRead,
    EntityRead,
    EntitySearch,
    ExactIndex,
    CompositeIndex,
    RelationshipRead,
    RelationshipQuery,
    PathFind,
    EntityLink,
    SemanticAliasResolve,
    ExternalMappingValidate,
    OntologyScopedEvidenceQuery,
    HybridEvidenceQuery,
    PolicyContextResolve,
    TextSearchProjection,
    VectorSearchProjection,
    MetricAggregateCount,
    MetricAggregateSum,
    MetricAggregateAvg,
    MetricAggregateMin,
    MetricAggregateMax,
    MetricAggregateDistinctCount,
    MetricDimensionGroupBy,
    MetricTimeBucketHour,
    MetricTimeBucketDay,
    MetricTimeBucketWeek,
    MetricTimeBucketMonth,
    MetricTimeBucketQuarter,
    MetricTimeBucketYear,
}

/// Lifecycle status for a provider implementation.
#[derive(Debug, Clone, Copy, PartialEq, Eq, Structural)]
pub enum ProviderStatus {
    Experimental,
    Stable,
    Deprecated,
}

/// Cross-repo compatibility markers shared across contracts, packs, and catalog entries.
#[derive(Debug, PartialEq, Eq)]
pub struct ContractCompatibility {
    pub supported_provider_contract_version: String,
    pub supported_sorla_ir: String,
    pub supported_sorla_ir_range: String,
}

impl Clone for ContractCompatibility {
    fn clone(&self) -> (r: Self)
        ensures
            r == *self,
    {
        ContractCompatibility {
            supported_provider_contract_version: self.supported_provider_contract_version.clone(),
            supported_sorla_ir: self.supported_sorla_ir.clone(),
            supported_sorla_ir_range: self.supported_sorla_ir_range.clone(),
        }
    }
}

impl ContractCompatibility {
    pub fn new(
        supported_provider_contract_version: &str,
        supported_sorla_ir: &str,
        supported_sorla_ir_range: &str,
    ) -> (r: Self)
        ensures
            r.supported_provider_contract_version@ == supported_provider_contract_version@,
            r.supported_sorla_ir@ == supported_sorla_ir@,
            r.supported_sorla_ir_range@ == supported_sorla_ir_range@,
    {
        ContractCompatibility {
            supported_provider_contract_version: owned(supported_provider_contract_version),
            supported_sorla_ir: owned(supported_sorla_ir),
            supported_sorla_ir_range: owned(supported_sorla_ir_range),
        }
    }

    /// Whether the supported SoRLa IR range is a valid semver requirement.
    pub fn parses_semver_range(&self) -> (r: bool)
        ensures
            r == crate::semver_gate::semver_req_parses(self.supported_sorla_ir_range@),
    {
        crate::semver_gate::version_req_parses(self.supported_sorla_ir_range.as_str())
    }
}

/// Canonical shared provider metadata.
#[derive(Debug, PartialEq, Eq)]
pub struct ProviderMetadata {
    pub provider_id: String,
    pub display_name: String,
    pub provider_kind: String,
    pub version: String,
    pub status: ProviderStatus,
    pub is_mock: bool,
    pub capabilities: Vec<ProviderCapability>,
    pub compatibility: ContractCompatibility,
    pub ontology_capabilities: Option<ProviderOntologyCapabilities>,
}

impl ProviderMetadata {
    /// Whether `capability` is among the advertised capabilities.
    pub fn supports(&self, capability: ProviderCapability) -> (r: bool)
        ensures
            r == self.capabilities@.contains(capability),
    {
        let n = self.capabilities.len();
        for i in 0..n
            invariant
                n == self.capabilities@.len(),
                forall|j: int| 0 <= j < i ==> self.capabilities@[j] != capability,
        {
            if self.capabilities[i] == capability {
                return true;
            }
        }
        false
    }
}

/// Optional ontology capability metadata for providers and generated packs.
#[derive(Debug, PartialEq, Eq)]
pub struct ProviderOntologyCapabilities {
    pub schema: String,
    pub compatibility: OntologyContractCompatibility,
    pub supports_entity_read: bool,
    pub supports_entity_search: bool,
    pub supports_relationship_query: bool,
    pub supports_path_find: bool,
    pub supports_entity_linking: bool,
    pub supports_ontology_scoped_evidence: bool,
    pub supported_concept_types: Vec<String>,
    pub supported_relationship_types: Vec<String>,
    pub max_traversal_depth: Option<u8>,
    pub supports_policy_context: bool,
    pub index_capabilities: Option<ProviderIndexCapabilities>,
    pub search_capabilities: Option<ProviderSearchCapabilities>,
}

impl ProviderOntologyCapabilities {
    /// Field-by-field equality, sequences compared by their contents.
    pub open spec fn same(self, other: Self) -> bool {
        &&& self.schema == other.schema
        &&& self.compatibility == other.compatibility
        &&& self.supports_entity_read == other.supports_entity_read
        &&& self.supports_entity_search == other.supports_entity_search
        &&& self.supports_relationship_query == other.supports_relationship_query
        &&& self.supports_path_find == other.supports_path_find
        &&& self.supports_entity_linking == other.supports_entity_linking
        &&& self.supports_ontology_scoped_evidence == other.supports_ontology_scoped_evidence
        &&& self.supported_concept_types@ == other.supported_concept_types@
        &&& self.supported_relationship_types@ == other.supported_relationship_types@
        &&& self.max_traversal_depth == other.max_traversal_depth
        &&& self.supports_policy_context == other.supports_policy_context
        &&& self.index_capabilities == other.index_capabilities
        &&& self.search_capabilities == other.search_capabilities
    }
}

impl Clone for ProviderOntologyCapabilities {
    fn clone(&self) -> (r: Self)
        ensures
            r.same(*self),
    {
        let concepts = self.supported_concept_types.clone();
        let relationships = self.supported_relationship_types.clone();
        proof {
            assert(concepts@ =~= self.supported_concept_types@);
            assert(relationships@ =~= self.supported_relationship_types@);
        }
        ProviderOntologyCapabilities {
            schema: self.schema.clone(),
            compatibility: self.compatibility.clone(),
            supports_entity_read: self.supports_entity_read,
            supports_entity_search: self.supports_entity_search,
            supports_relationship_query: self.supports_relationship_query,
            supports_path_find: self.supports_path_find,
            supports_entity_linking: self.supports_entity_linking,
            supports_ontology_scoped_evidence: self.supports_ontology_scoped_evidence,
            supported_concept_types: concepts,
            supported_relationship_types: relationships,
            max_traversal_depth: self.max_traversal_depth,
            supports_policy_context: self.supports_policy_context,
            index_capabilities: self.index_capabilities,
            search_capabilities: self.search_capabilities,
        }
    }
}

/// Structured index support metadata for provider discovery.
#[derive(Debug, Clone, Copy, PartialEq, Eq, Structural)]
pub struct ProviderIndexCapabilities {
    pub exact: bool,
    pub composite: bool,
}

/// Whether a projection is unavailable, optional, or required for a provider.
#[derive(Debug, Clone, Copy, PartialEq, Eq, Structural)]
pub enum ProjectionSupport {
    Unavailable,
    Optional,
    Required,
}

/// Structured search projection support metadata for provider discovery.
#[derive(Debug, Clone, Copy, PartialEq, Eq, Structural)]
pub struct ProviderSearchCapabilities {
    pub text_projection: ProjectionSupport,
    pub vector_projection: ProjectionSupport,
}

/// Compatibility gates for ontology-aware provider metadata.
#[derive(Debug, PartialEq, Eq)]
pub struct OntologyContractCompatibility {
    pub supported_ontology_schema: String,
    pub supported_ontology_schema_range: String,
    pub supported_retrieval_binding_schema: Option<String>,
    pub supported_external_mapping_schema: Option<String>,
}

impl Clone for OntologyContractCompatibility {
    fn clone(&self) -> (r: Self)
        ensures
            r == *self,
    {
        OntologyContractCompatibility {
            supported_ontology_schema: self.supported_ontology_schema.clone(),
            supported_ontology_schema_range: self.supported_ontology_schema_range.clone(),
            supported_retrieval_binding_schema: self.supported_retrieval_binding_schema.clone(),
            supported_external_mapping_schema: self.supported_external_mapping_schema.clone(),
        }
    }
}

impl OntologyContractCompatibility {
    /// Whether the supported ontology schema range is a valid semver requirement.
    pub fn parses_schema_range(&self) -> (r: bool)
        ensures
            r == crate::semver_gate::semver_req_parses(self.supported_ontology_schema_range@),
    {
        crate::semver_gate::version_req_parses(self.supported_ontology_schema_range.as_str())
    }
}

/// Health state for provider checks.
#[derive(Debug, Clone, Copy, PartialEq, Eq, Structural)]
pub enum HealthState {
    Ready,
    Degraded,
    Unavailable,
}

/// Provider health payload.
#[derive(Debug, Clone, PartialEq, Eq)]
pub struct HealthReport {
    pub state: HealthState,
    pub message: String,
}

/// Request to append a single immutable event.
#[derive(Debug, Clone, PartialEq, Eq)]
pub struct AppendEventRequest {
    pub stream_id: String,
    pub event_type: String,
    pub payload: String,
    pub expected_revision: Option<u64>,
}

/// Immutable event record returned by event-native providers.
#[derive(Debug, PartialEq, Eq)]
pub struct EventRecord {
    pub stream_id: String,
    pub revision: u64,
    pub event_type: String,
    pub payload: String,
}

impl Clone for EventRecord {
    fn clone(&self) -> (r: Self)
        ensures
            r == *self,
    {
        EventRecord {
            stream_id: self.stream_id.clone(),
            revision: self.revision,
            event_type: self.event_type.clone(),
            payload: self.payload.clone(),
        }
    }
}

/// Production source-of-record namespace for canonical SORX state.
///
/// Durable production records are scoped by `tenant_id + sor_id`. `environment_id`
/// may be used to isolate local, test, or staging state, but it must not replace
/// the production source-of-record boundary.
#[derive(Debug, PartialEq, Eq, Hash)]
pub struct SorNamespace {
    pub tenant_id: String,
    pub sor_id: String,
    pub environment_id: Option<String>,
}

impl Clone for SorNamespace {
    fn clone(&self) -> (r: Self)
        ensures
            r == *self,
    {
        SorNamespace {
            tenant_id: self.tenant_id.clone(),
            sor_id: self.sor_id.clone(),
            environment_id: self.environment_id.clone(),
        }
    }
}

/// The unit separator used between fields of composite keys.
pub open spec fn unit_sep() -> Seq<char> {
    seq!['\u{1f}']
}

impl SorNamespace {
    /// `tenant_id`, a unit separator, then `sor_id`.
    pub open spec fn production_key_text(self) -> Seq<char> {
        self.tenant_id@ + unit_sep() + self.sor_id@
    }

    /// `tenant_id/sor_id`, followed by `/environment_id` when there is one.
    pub open spec fn entity_namespace_text(self) -> Seq<char> {
        match self.environment_id {
            Some(env) => self.tenant_id@ + seq!['/'] + self.sor_id@ + seq!['/'] + env@,
            None => self.tenant_id@ + seq!['/'] + self.sor_id@,
        }
    }

    pub fn production_key(&self) -> (out: String)
        ensures
            out@ == self.production_key_text(),
    {
        let mut out = self.tenant_id.clone();
        push_char(&mut out, '\u{1f}');
        push_str(&mut out, self.sor_id.as_str());
        out
    }

    pub fn to_entity_namespace(&self) -> (out: String)
        ensures
            out@ == self.entity_namespace_text(),
    {
        let mut out = self.tenant_id.clone();
        push_char(&mut out, '/');
        push_str(&mut out, self.sor_id.as_str());
        match &self.environment_id {
            Some(env) => {
                push_char(&mut out, '/');
                push_str(&mut out, env.as_str());
            },
            None => {},
        }
        out
    }
}

/// Canonical persisted entity record for SORX state.
///
/// `data_json` holds the entity's JSON document as compact JSON text.
#[derive(Debug, PartialEq, Eq)]
pub struct CanonicalEntityRecord {
    pub namespace: SorNamespace,
    pub entity_type: String,
    pub entity_id: String,
    pub canonical_version: String,
    pub revision: u64,
    pub data_json: String,
    pub created_at: String,
    pub updated_at: String,
}

impl Clone for CanonicalEntityRecord {
    fn clone(&self) -> (r: Self)
        ensures
            r == *self,
    {
        CanonicalEntityRecord {
            namespace: self.namespace.clone(),
            entity_type: self.entity_type.clone(),
            entity_id: self.entity_id.clone(),
            canonical_version: self.canonical_version.clone(),
            revision: self.revision,
            data_json: self.data_json.clone(),
            created_at: self.created_at.clone(),
            updated_at: self.updated_at.clone(),
        }
    }
}

impl CanonicalEntityRecord {
    pub fn entity_ref(&self) -> (r: EntityRef)
        ensures
            r.entity_type == self.entity_type,
            r.entity_id == self.entity_id,
            r.namespace is Some,
            r.namespace.unwrap()@ == self.namespace.entity_namespace_text(),
            r.version == Some(self.canonical_version),
    {
        EntityRef {
            entity_type: self.entity_type.clone(),
            entity_id: self.entity_id.clone(),
            namespace: Some(self.namespace.to_entity_namespace()),
            version: Some(self.canonical_version.clone()),
        }
    }
}

/// Immutable event record for canonical SORX streams.
///
/// `payload_json` holds the event payload as compact JSON text.
#[derive(Debug, PartialEq, Eq)]
pub struct SorEventRecord {
    pub namespace: SorNamespace,
    pub event_id: String,
    pub stream_id: String,
    pub sequence: u64,
    pub event_type: String,
    pub entity_ref: EntityRef,
    pub command_id: Option<String>,
    pub idempotency_key: Option<String>,
    pub actor: Option<String>,
    pub source_view_version: Option<String>,
    pub canonical_version: String,
    pub payload_json: String,
    pub timestamp: String,
}

impl Clone for SorEventRecord {
    fn clone(&self) -> (r: Self)
        ensures
            r == *self,
    {
        SorEventRecord {
            namespace: self.namespace.clone(),
            event_id: self.event_id.clone(),
            stream_id: self.stream_id.clone(),
            sequence: self.sequence,
            event_type: self.event_type.clone(),
            entity_ref: self.entity_ref.clone(),
            command_id: self.command_id.clone(),
            idempotency_key: self.idempotency_key.clone(),
            actor: self.actor.clone(),
            source_view_version: self.source_view_version.clone(),
            canonical_version: self.canonical_version.clone(),
            payload_json: self.payload_json.clone(),
            timestamp: self.timestamp.clone(),
        }
    }
}

/// Canonical write request that must be applied atomically by durable providers.
#[derive(Debug, PartialEq, Eq)]
pub struct CanonicalWriteRequest {
    pub event: SorEventRecord,
    pub entity: CanonicalEntityRecord,
    pub relationships: Vec<RelationshipInstance>,
    pub entity_links: Vec<EntityLink>,
}

/// Result returned after an atomic canonical write.
#[derive(Debug, PartialEq, Eq)]
pub struct CanonicalWriteResult {
    pub event: SorEventRecord,
    pub entity: CanonicalEntityRecord,
    pub relationships_written: usize,
    pub entity_links_written: usize,
}

/// Request for stream reads.
#[derive(Debug, Clone, PartialEq, Eq)]
pub struct EventStreamRequest {
    pub stream_id: String,
    pub from_revision: u64,
    pub limit: usize,
}

/// Projection snapshot record.
#[derive(Debug, PartialEq, Eq)]
pub struct ProjectionRecord {
    pub projection_name: String,
    pub projection_key: String,
    pub state_json: String,
    pub last_applied_revision: u64,
}

impl Clone for ProjectionRecord {
    fn clone(&self) -> (r: Self)
        ensures
            r == *self,
    {
        ProjectionRecord {
            projection_name: self.projection_name.clone(),
            projection_key: self.projection_key.clone(),
            state_json: self.state_json.clone(),
            last_applied_revision: self.last_applied_revision,
        }
    }
}

/// Request to persist a projection snapshot.
#[derive(Debug, Clone, PartialEq, Eq)]
pub struct PersistProjectionRequest {
    pub projection_name: String,
    pub projection_key: String,
    pub state_json: String,
    pub last_applied_revision: u64,
}

/// Projection checkpoint.
#[derive(Debug, PartialEq, Eq)]
pub struct ProjectionCheckpoint {
    pub projection_name: String,
    pub checkpoint_token: String,
}

impl Clone for ProjectionCheckpoint {
    fn clone(&self) -> (r: Self)
        ensures
            r == *self,
    {
        ProjectionCheckpoint {
            projection_name: self.projection_name.clone(),
            checkpoint_token: self.checkpoint_token.clone(),
        }
    }
}

/// Request to rebuild a projection from a checkpoint or full replay.
#[derive(Debug, Clone, PartialEq, Eq)]
pub struct ProjectionRebuildRequest {
    pub projection_name: String,
    pub from_checkpoint: Option<String>,
}

/// Generic reference to an ontology entity.
#[derive(Debug, PartialEq, Eq, Hash)]
pub struct EntityRef {
    pub entity_type: String,
    pub entity_id: String,
    pub namespace: Option<String>,
    pub version: Option<String>,
}

impl Clone for EntityRef {
    fn clone(&self) -> (r: Self)
        ensures
            r == *self,
    {
        EntityRef {
            entity_type: self.entity_type.clone(),
            entity_id: self.entity_id.clone(),
            namespace: self.namespace.clone(),
            version: self.version.clone(),
        }
    }
}

/// Persisted or returned ontology entity payload.
#[derive(Debug, PartialEq, Eq)]
pub struct EntityRecord {
    pub entity: EntityRef,
    pub label: Option<String>,
    pub metadata_json: Option<String>,
}

impl Clone for EntityRecord {
    fn clone(&self) -> (r: Self)
        ensures
            r == *self,
    {
        EntityRecord {
            entity: self.entity.clone(),
            label: self.label.clone(),
            metadata_json: self.metadata_json.clone(),
        }
    }
}

/// Search request for generic ontology entities.
#[derive(Debug, Clone, PartialEq, Eq)]
pub struct EntitySearchQuery {
    pub entity_types: Vec<String>,
    pub query: Option<String>,
    pub namespace: Option<String>,
    pub metadata_json: Option<String>,
    pub limit: usize,
}

/// Generic reference to an ontology relationship.
#[derive(Debug, PartialEq, Eq, Hash)]
pub struct RelationshipRef {
    pub relationship_type: String,
    pub from: EntityRef,
    pub to: EntityRef,
}

impl Clone for RelationshipRef {
    fn clone(&self) -> (r: Self)
        ensures
            r == *self,
    {
        RelationshipRef {
            relationship_type: self.relationship_type.clone(),
            from: self.from.clone(),
            to: self.to.clone(),
        }
    }
}

/// Direction for relationship traversal.
#[derive(Debug, Clone, Copy, PartialEq, Eq, Structural)]
pub enum RelationshipDirection {
    Incoming,
    Outgoing,
    Both,
}

/// Rule used when expanding an ontology scope.
#[derive(Debug, Clone, PartialEq, Eq)]
pub struct RelationshipTraversalRule {
    pub relationship_type: Option<String>,
    pub direction: RelationshipDirection,
    pub max_depth: Option<u8>,
}

/// Scope used to bind evidence, graph traversal, and policy context to ontology entities.
#[derive(Debug, Clone, PartialEq, Eq)]
pub struct OntologyScope {
    pub root_entities: Vec<EntityRef>,
    pub include_related: Vec<RelationshipTraversalRule>,
    pub max_depth: Option<u8>,
    pub include_evidence_links: bool,
}

/// Query for relationship instances.
#[derive(Debug, Clone, PartialEq, Eq)]
pub struct RelationshipQuery {
    pub root_entities: Vec<EntityRef>,
    pub relationship_type: Option<String>,
    pub direction: RelationshipDirection,
    pub max_depth: Option<u8>,
    pub limit: usize,
}

/// Generic relationship instance.
#[derive(Debug, PartialEq, Eq)]
pub struct RelationshipInstance {
    pub relationship: RelationshipRef,
    pub metadata_json: Option<String>,
    pub provenance: Option<String>,
}

impl Clone for RelationshipInstance {
    fn clone(&self) -> (r: Self)
        ensures
            r == *self,
    {
        RelationshipInstance {
            relationship: self.relationship.clone(),
            metadata_json: self.metadata_json.clone(),
            provenance: self.provenance.clone(),
        }
    }
}

/// Query for deterministic bounded path finding.
#[derive(Debug, Clone, PartialEq, Eq)]
pub struct PathQuery {
    pub from: EntityRef,
    pub to: EntityRef,
    pub relationship_types: Vec<String>,
    pub max_depth: u8,
    pub limit: usize,
}

/// One step in an ontology path.
#[derive(Debug, PartialEq, Eq)]
pub struct OntologyPathStep {
    pub relationship: RelationshipRef,
    pub direction: RelationshipDirection,
}

impl Clone for OntologyPathStep {
    fn clone(&self) -> (r: Self)
        ensures
            r == *self,
    {
        OntologyPathStep { relationship: self.relationship.clone(), direction: self.direction }
    }
}

/// Deterministic ontology path result.
#[derive(Debug, Clone, PartialEq, Eq)]
pub struct OntologyPath {
    pub start: EntityRef,
    pub end: EntityRef,
    pub steps: Vec<OntologyPathStep>,
}

/// Inclusive time range filter using provider-neutral timestamp strings.
#[derive(Debug, Clone, PartialEq, Eq)]
pub struct TimeRange {
    pub start: Option<String>,
    pub end: Option<String>,
}

/// Request to resolve an external source-of-record reference.
#[derive(Debug, Clone, PartialEq, Eq)]
pub struct ExternalReferenceRequest {
    pub reference_type: String,
    pub reference_id: String,
    pub source_ref: Option<String>,
    pub metadata_json: Option<String>,
    pub ontology_scope: Option<OntologyScope>,
}

/// Resolved external record payload.
#[derive(Debug, Clone, PartialEq, Eq)]
pub struct ExternalReferencePayload {
    pub record_id: String,
    pub source_url: String,
    pub content_json: String,
}

/// Query filters for evidence retrieval.
#[derive(Debug, Clone, Default, PartialEq, Eq)]
pub struct EvidenceQueryFilter {
    pub ontology_scope: Option<OntologyScope>,
    pub source_types: Vec<String>,
    pub document_types: Vec<String>,
    pub metadata_json: Option<String>,
    pub time_range: Option<TimeRange>,
    pub sensitivity_max: Option<String>,
}

/// Query for evidence lookup.
#[derive(Debug, Clone, PartialEq, Eq)]
pub struct EvidenceQuery {
    pub query: String,
    pub filter: EvidenceQueryFilter,
    pub limit: usize,
}

/// Link from provider content or source refs to a generic ontology entity.
///
/// `confidence` holds the IEEE-754 single-precision bit pattern of the
/// link's confidence score (`f32::to_bits`); the library only carries it.
#[derive(Debug, PartialEq, Eq)]
pub struct EntityLink {
    pub entity: EntityRef,
    pub source_ref: String,
    pub evidence_id: Option<String>,
    pub confidence: u32,
    pub match_kind: String,
    pub provenance: String,
    pub metadata_json: Option<String>,
}

impl Clone for EntityLink {
    fn clone(&self) -> (r: Self)
        ensures
            r == *self,
    {
        EntityLink {
            entity: self.entity.clone(),
            source_ref: self.source_ref.clone(),
            evidence_id: self.evidence_id.clone(),
            confidence: self.confidence,
            match_kind: self.match_kind.clone(),
            provenance: self.provenance.clone(),
            metadata_json: self.metadata_json.clone(),
        }
    }
}

/// Request to link provider content to ontology entities.
#[derive(Debug, Clone, PartialEq, Eq)]
pub struct EntityLinkRequest {
    pub source_ref: Option<String>,
    pub evidence_id: Option<String>,
    pub content_json: Option<String>,
    pub candidate_types: Vec<String>,
    pub ontology_scope: Option<OntologyScope>,
}

/// Provider-neutral policy context lookup request.
#[derive(Debug, Clone, PartialEq, Eq)]
pub struct PolicyContextRequest {
    pub ontology_scope: Option<OntologyScope>,
    pub subject_ref: Option<EntityRef>,
    pub action: String,
    pub metadata_json: Option<String>,
}

/// Provider-neutral policy context result.
#[derive(Debug, Clone, PartialEq, Eq)]
pub struct PolicyContext {
    pub context_json: String,
    pub provenance: String,
}

/// Minimal pack emission hook input shared by provider implementations.
#[derive(Debug, Clone, PartialEq, Eq)]
pub struct PackEmission {
    pub provider_id: String,
    pub artifact_ref: String,
}

} // verus!
