//! The local/dev FoundationDB provider: SoRLa event, projection, entity,
//! canonical-write and ontology-graph semantics over an in-memory store.
use vstd::prelude::*;

use crate::fdb_keys::{
    entity_order_key, entity_order_parts, lemma_selection, link_entity_key, link_entity_parts,
    link_source_key, link_source_parts, selection_by_parts, canonical_entity_key, canonical_key_text, checkpoint_token, checkpoint_token_text,
    entity_key, entity_key_text, idempotency_key_text, idempotency_slot, projection_slot,
    projection_slot_text, relationship_key, relationship_key_text,
};
use crate::keyspace::{encode_key_segment, encode_segment};
use crate::store::{
    concat_all, put_keys, put_vals, puts_keys, puts_vals, seq_at, seq_value_at, value_at, KeyedStore,
};
use crate::sort::{is_permutation, sorted_order};
use crate::tuple_key::{opt_view, TupleKey};
use crate::fdb_paths::{distinct_paths, distinct_refs, distinct_rel_keys, answers_path_query, cut_in_search_order, find_paths_in};
use crate::catalog::{ProviderCatalogEntry, ProviderCatalogOntology};
use crate::pack::{
    oci_reference_text, package_dir_text, provider_artifact_file_uri, provider_runtime_component,
    ArtifactReference, ConfigSchemaRef, ProviderPackManifest, RuntimeComponentRef,
};
use crate::traits::{
    ConfigValidator, ProviderHealth, ProviderMetadataSource, CanonicalEntityStoreProvider, CanonicalWriteProvider, EntityLinkProvider, EntityStoreProvider,
    EventStoreProvider, OntologyGraphProvider, ProjectionProvider,
};
use crate::text::{
    after_last, concat, contains_text, decimal, decimal_string, is_blank, list_contains_text,
    same_text, text_contains, texts_contain, is_blank_text, owned, parse_u64, parse_u64_text, push_str,
    text_after_last, trim_end_char, trim_end_matching, padded_decimal, padded_decimal_string, chars_lt,
};
use crate::sort::{SortKey, StrKey};
use crate::types::{
    unit_sep, AppendEventRequest, CanonicalEntityRecord, CanonicalWriteRequest,
    CanonicalWriteResult, EntityLink, EntityLinkRequest, EntityRecord, EntityRef,
    EntitySearchQuery, OntologyPath, PathQuery, RelationshipDirection, RelationshipInstance, RelationshipQuery,
    SorEventRecord, EventRecord, ContractCompatibility, OntologyContractCompatibility, PackEmission,
    ProjectionSupport, ProviderCapability, ProviderIndexCapabilities, ProviderMetadata,
    ProviderOntologyCapabilities, ProviderSearchCapabilities, ProviderStatus,
    SORLA_PROVIDER_CONTRACT_VERSION, EventStreamRequest, HealthReport, HealthState,
    PersistProjectionRequest, ProjectionCheckpoint, ProjectionRebuildRequest, ProjectionRecord,
    ProviderError, SorNamespace,
};
use vstd::utf8::encode_utf8;

verus! {

/// Connection settings of the FoundationDB provider.
#[derive(Debug, PartialEq, Eq)]
pub struct FoundationDbConfig {
    pub cluster_file: String,
    pub tenant_prefix: String,
}

impl Clone for FoundationDbConfig {
    fn clone(&self) -> (r: Self)
        ensures
            r == *self,
    {
        FoundationDbConfig {
            cluster_file: self.cluster_file.clone(),
            tenant_prefix: self.tenant_prefix.clone(),
        }
    }
}

/// Documented key prefixes of the tenant keyspace.
#[derive(Debug, Clone, PartialEq, Eq)]
pub struct KeyspaceLayout {
    pub events_prefix: String,
    pub projections_prefix: String,
    pub indexes_prefix: String,
    pub metadata_prefix: String,
    pub checkpoints_prefix: String,
    pub compatibility_prefix: String,
    pub ontology_model_prefix: String,
    pub entities_prefix: String,
    pub relationships_prefix: String,
    pub relationship_from_index_prefix: String,
    pub relationship_to_index_prefix: String,
    pub evidence_links_prefix: String,
}

/// Documented key prefixes of a canonical SORX namespace.
#[derive(Debug, Clone, PartialEq, Eq)]
pub struct CanonicalKeyspaceLayout {
    pub current_schema_key: String,
    pub canonical_version_key: String,
    pub active_views_prefix: String,
    pub entities_prefix: String,
    pub entity_versions_prefix: String,
    pub events_prefix: String,
    pub events_by_entity_prefix: String,
    pub events_by_time_prefix: String,
    pub edges_out_prefix: String,
    pub edges_in_prefix: String,
    pub indexes_prefix: String,
    pub composite_indexes_prefix: String,
    pub external_refs_prefix: String,
    pub external_refs_by_entity_prefix: String,
    pub evidence_prefix: String,
    pub evidence_by_entity_prefix: String,
    pub migrations_prefix: String,
    pub deployments_prefix: String,
}

/// A persisted projection and its checkpoint.
pub struct ProjectionState {
    pub record: ProjectionRecord,
    pub checkpoint: ProjectionCheckpoint,
}

/// The largest revision among `events`, 0 when there are none.
pub open spec fn max_revision(events: Seq<EventRecord>) -> u64
    decreases events.len(),
{
    if events.len() == 0 {
        0
    } else {
        let rest = max_revision(events.drop_last());
        if events.last().revision > rest {
            events.last().revision
        } else {
            rest
        }
    }
}

/// The largest revision in any of the streams, 0 when there are none.
pub open spec fn max_revision_all(streams: Seq<Vec<EventRecord>>) -> u64
    decreases streams.len(),
{
    if streams.len() == 0 {
        0
    } else {
        let rest = max_revision_all(streams.drop_last());
        let last = max_revision(streams.last()@);
        if last > rest {
            last
        } else {
            rest
        }
    }
}

/// The revision of the last event of a stream, 0 for an empty stream.
pub open spec fn last_revision(events: Seq<EventRecord>) -> u64 {
    if events.len() == 0 {
        0
    } else {
        events.last().revision
    }
}

/// The first `n` elements of `s`, or all of them when there are fewer.
pub open spec fn take_at_most<T>(s: Seq<T>, n: nat) -> Seq<T> {
    if n < s.len() {
        s.take(n as int)
    } else {
        s
    }
}

/// The events of a stream read from a revision on.
pub open spec fn stream_slice(events: Seq<EventRecord>, from_revision: u64, limit: nat) -> Seq<
    EventRecord,
> {
    take_at_most(events.filter(|e: EventRecord| e.revision >= from_revision), limit)
}

/// `expected revision {expected} did not match stream revision {last}`.
pub open spec fn revision_mismatch_message(expected: u64, last: u64) -> Seq<char> {
    "expected revision "@ + decimal(expected as nat) + " did not match stream revision "@ + decimal(last as nat)
}

/// The revision a rebuild targets: the one a checkpoint token names after its
/// last `@`, or else the highest revision stored.
pub open spec fn rebuild_target(from_checkpoint: Option<String>, highest: u64) -> u64 {
    match from_checkpoint {
        Some(token) => match after_last(token@, '@') {
            Some(rev) => match parse_u64_text(rev) {
                Some(v) => v,
                None => highest,
            },
            None => highest,
        },
        None => highest,
    }
}

/// The stores of the in-memory provider.
pub enum StoreName {
    Streams,
    Projections,
    CanonicalStreams,
    CanonicalEntities,
    IdempotencyKeys,
    Entities,
    Relationships,
    EvidenceLinks,
}

/// Keys and relationships line up, each relationship under its own key.
pub open spec fn keyed_relationships(ks: Seq<Seq<char>>, vs: Seq<RelationshipInstance>) -> bool {
    &&& ks.len() == vs.len()
    &&& forall|i: int| 0 <= i < ks.len() ==> #[trigger] ks[i] == relationship_key_text(vs[i].relationship)
}

/// Storing a relationship under its own key keeps every relationship under
/// its own key.
proof fn lemma_put_keeps_keyed(ks: Seq<Seq<char>>, vs: Seq<RelationshipInstance>, v: RelationshipInstance)
    requires
        keyed_relationships(ks, vs),
    ensures
        keyed_relationships(
            put_keys(ks, relationship_key_text(v.relationship)),
            put_vals(ks, vs, relationship_key_text(v.relationship), v),
        ),
{
    let k = relationship_key_text(v.relationship);
    if ks.contains(k) {
        let idx = ks.index_of(k);
        assert(ks[idx] == k);
        assert forall|i: int| 0 <= i < ks.len() implies #[trigger] ks[i] == relationship_key_text(vs.update(idx, v)[i].relationship) by {
            if i != idx {
                assert(vs.update(idx, v)[i] == vs[i]);
            }
        }
    } else {
        assert forall|i: int| 0 <= i < ks.len() + 1 implies #[trigger] ks.push(k)[i] == relationship_key_text(vs.push(v)[i].relationship) by {
            if i < ks.len() {
                assert(ks.push(k)[i] == ks[i]);
                assert(vs.push(v)[i] == vs[i]);
            }
        }
    }
}

/// Local/dev FoundationDB provider with an in-memory store.
pub struct FoundationDbProvider {
    config: FoundationDbConfig,
    streams: KeyedStore<Vec<EventRecord>>,
    projections: KeyedStore<ProjectionState>,
    canonical_streams: KeyedStore<Vec<SorEventRecord>>,
    canonical_entities: KeyedStore<CanonicalEntityRecord>,
    idempotency_keys: KeyedStore<String>,
    entities: KeyedStore<EntityRecord>,
    relationships: KeyedStore<RelationshipInstance>,
    evidence_links: KeyedStore<Vec<EntityLink>>,
}

impl FoundationDbProvider {
    /// The configuration the provider was made with.
    pub closed spec fn config_view(self) -> FoundationDbConfig {
        self.config
    }

    /// Event streams by stream id.
    pub closed spec fn streams_view(self) -> Map<Seq<char>, Vec<EventRecord>> {
        self.streams.view_map()
    }

    /// The events of one stream, in append order.
    pub open spec fn stream(self, stream_id: Seq<char>) -> Seq<EventRecord> {
        seq_at(self.streams_view(), stream_id)
    }

    /// The largest revision in any stream.
    pub closed spec fn highest_revision(self) -> u64 {
        max_revision_all(self.streams.val_seq())
    }

    /// Projections by slot (encoded name and key).
    pub closed spec fn projections_view(self) -> Map<Seq<char>, ProjectionState> {
        self.projections.view_map()
    }

    /// Canonical event streams by stream id.
    pub closed spec fn canonical_stream_store(self) -> KeyedStore<Vec<SorEventRecord>> {
        self.canonical_streams
    }

    /// Canonical entities by canonical key.
    pub closed spec fn canonical_store(self) -> KeyedStore<CanonicalEntityRecord> {
        self.canonical_entities
    }

    /// Applied idempotency keys, with the id of the event that applied each.
    pub closed spec fn idempotency_store(self) -> KeyedStore<String> {
        self.idempotency_keys
    }

    /// Generic entities by entity key.
    pub closed spec fn entity_store(self) -> KeyedStore<EntityRecord> {
        self.entities
    }

    /// Relationships by relationship key.
    pub closed spec fn relationship_store(self) -> KeyedStore<RelationshipInstance> {
        self.relationships
    }

    /// Evidence links by the entity key of the linked entity.
    pub closed spec fn link_store(self) -> KeyedStore<Vec<EntityLink>> {
        self.evidence_links
    }

    /// The configuration and every store not named in `changed` are as in `other`.
    pub closed spec fn agrees_outside(self, other: Self, changed: Set<StoreName>) -> bool {
        &&& self.config == other.config
        &&& (changed.contains(StoreName::Streams) || self.streams == other.streams)
        &&& (changed.contains(StoreName::Projections) || self.projections == other.projections)
        &&& (changed.contains(StoreName::CanonicalStreams) || self.canonical_streams
            == other.canonical_streams)
        &&& (changed.contains(StoreName::CanonicalEntities) || self.canonical_entities
            == other.canonical_entities)
        &&& (changed.contains(StoreName::IdempotencyKeys) || self.idempotency_keys
            == other.idempotency_keys)
        &&& (changed.contains(StoreName::Entities) || self.entities == other.entities)
        &&& (changed.contains(StoreName::Relationships) || self.relationships
            == other.relationships)
        &&& (changed.contains(StoreName::EvidenceLinks) || self.evidence_links
            == other.evidence_links)
    }

    /// Every store is empty.
    pub open spec fn is_empty(self) -> bool {
        &&& self.streams_view() == Map::<Seq<char>, Vec<EventRecord>>::empty()
        &&& self.projections_view() == Map::<Seq<char>, ProjectionState>::empty()
        &&& self.canonical_stream_store().key_seq().len() == 0
        &&& self.canonical_store().key_seq().len() == 0
        &&& self.idempotency_store().key_seq().len() == 0
        &&& self.entity_store().key_seq().len() == 0
        &&& self.relationship_store().key_seq().len() == 0
        &&& self.link_store().key_seq().len() == 0
        &&& self.canonical_stream_store().val_seq().len() == 0
        &&& self.canonical_store().val_seq().len() == 0
        &&& self.idempotency_store().val_seq().len() == 0
        &&& self.entity_store().val_seq().len() == 0
        &&& self.relationship_store().val_seq().len() == 0
        &&& self.link_store().val_seq().len() == 0
    }

    /// Every stored relationship sits under its own relationship key.
    pub closed spec fn relationships_keyed(self) -> bool {
        keyed_relationships(self.relationships.key_seq(), self.relationships.val_seq())
    }

    /// A change confined to the stores named in `changed` leaves the
    /// configuration and every other store as they were.
    pub proof fn lemma_agrees_outside(self, other: Self, changed: Set<StoreName>)
        requires
            self.agrees_outside(other, changed),
        ensures
            self.config_view() == other.config_view(),
            !changed.contains(StoreName::Streams) ==> self.streams_view() == other.streams_view(),
            !changed.contains(StoreName::Projections) ==> self.projections_view() == other.projections_view(),
            !changed.contains(StoreName::CanonicalStreams) ==> self.canonical_stream_store() == other.canonical_stream_store(),
            !changed.contains(StoreName::CanonicalEntities) ==> self.canonical_store() == other.canonical_store(),
            !changed.contains(StoreName::IdempotencyKeys) ==> self.idempotency_store() == other.idempotency_store(),
            !changed.contains(StoreName::Entities) ==> self.entity_store() == other.entity_store(),
            !changed.contains(StoreName::Relationships) ==> self.relationship_store() == other.relationship_store(),
            !changed.contains(StoreName::EvidenceLinks) ==> self.link_store() == other.link_store(),
    {
    }

    /// A provider over an empty store.
    pub fn new(config: FoundationDbConfig) -> (p: Self)
        ensures
            p.config_view() == config,
            p.streams_view() == Map::<Seq<char>, Vec<EventRecord>>::empty(),
            p.projections_view() == Map::<Seq<char>, ProjectionState>::empty(),
            p.is_empty(),
            p.relationships_keyed(),
    {
        let p = FoundationDbProvider {
            config,
            streams: KeyedStore::new(),
            projections: KeyedStore::new(),
            canonical_streams: KeyedStore::new(),
            canonical_entities: KeyedStore::new(),
            idempotency_keys: KeyedStore::new(),
            entities: KeyedStore::new(),
            relationships: KeyedStore::new(),
            evidence_links: KeyedStore::new(),
        };
        assert(p.streams_view() =~= Map::empty());
        assert(p.projections_view() =~= Map::empty());
        p
    }

    /// A provider for tests, with a fixed cluster file and tenant prefix.
    pub fn for_tests() -> (p: Self)
        ensures
            p.config_view().cluster_file@ == "/tmp/fdb.cluster"@,
            p.config_view().tenant_prefix@ == "tenant/test"@,
            p.streams_view() == Map::<Seq<char>, Vec<EventRecord>>::empty(),
            p.projections_view() == Map::<Seq<char>, ProjectionState>::empty(),
            p.is_empty(),
            p.relationships_keyed(),
    {
        Self::new(
            FoundationDbConfig {
                cluster_file: owned("/tmp/fdb.cluster"),
                tenant_prefix: owned("tenant/test"),
            },
        )
    }

    /// The revision of the last event of `stream_id`, 0 when it has none.
    fn last_stream_revision(&self, stream_id: &str) -> (r: u64)
        ensures
            r == last_revision(self.stream(stream_id@)),
    {
        match self.streams.get(stream_id) {
            Some(events) => {
                if events.len() == 0 {
                    0
                } else {
                    events[events.len() - 1].revision
                }
            },
            None => 0,
        }
    }

    /// The largest revision in any stream.
    fn highest_stored_revision(&self) -> (r: u64)
        ensures
            r == self.highest_revision(),
    {
        let n = self.streams.len();
        let mut best: u64 = 0;
        for i in 0..n
            invariant
                n == self.streams.val_seq().len(),
                n == self.streams.key_seq().len(),
                best == max_revision_all(self.streams.val_seq().take(i as int)),
        {
            let events = self.streams.val_at(i);
            let m = events.len();
            let mut top: u64 = 0;
            for j in 0..m
                invariant
                    m == events@.len(),
                    top == max_revision(events@.take(j as int)),
            {
                assert(events@.take(j + 1).drop_last() =~= events@.take(j as int));
                if events[j].revision > top {
                    top = events[j].revision;
                }
            }
            assert(events@.take(m as int) =~= events@);
            assert(self.streams.val_seq().take(i + 1).drop_last() =~= self.streams.val_seq().take(
                i as int,
            ));
            if top > best {
                best = top;
            }
        }
        assert(self.streams.val_seq().take(n as int) =~= self.streams.val_seq());
        best
    }





    /// The checkpoint of the projection stored under a name and key.
    pub fn projection_checkpoint(&self, projection_name: &str, projection_key: &str) -> (r: Result<
        Option<ProjectionCheckpoint>,
        ProviderError,
    >)
        ensures
            ({
                let slot = projection_slot_text(projection_name@, projection_key@);
                r matches Ok(found) && match found {
                    Some(checkpoint) => self.projections_view().contains_key(slot) && checkpoint
                        == self.projections_view()[slot].checkpoint,
                    None => !self.projections_view().contains_key(slot),
                }
            }),
    {
        let slot = projection_slot(projection_name, projection_key);
        match self.projections.get(slot.as_str()) {
            Some(state) => Ok(Some(state.checkpoint.clone())),
            None => Ok(None),
        }
    }

}

/// The value stored under `k`.
pub open spec fn stored_at<V>(store: KeyedStore<V>, k: Seq<char>) -> V {
    store.val_seq()[store.key_seq().index_of(k)]
}

/// `after` is `before` with `v` stored under `k`.
pub open spec fn put_into<V>(before: KeyedStore<V>, after: KeyedStore<V>, k: Seq<char>, v: V) -> bool {
    &&& after.key_seq() == put_keys(before.key_seq(), k)
    &&& after.val_seq() == put_vals(before.key_seq(), before.val_seq(), k, v)
}

/// The entity key of the generic entity a canonical record projects to.
pub open spec fn canonical_ref_key_text(rec: CanonicalEntityRecord) -> Seq<char> {
    rec.namespace.entity_namespace_text() + unit_sep() + rec.entity_type@ + unit_sep()
        + rec.entity_id@ + unit_sep() + rec.canonical_version@
}

/// `e` is the generic entity a canonical record projects to: its reference,
/// no label, and the canonical data as metadata.
pub open spec fn is_generic_view_of(e: EntityRecord, rec: CanonicalEntityRecord) -> bool {
    &&& e.entity.entity_type == rec.entity_type
    &&& e.entity.entity_id == rec.entity_id
    &&& e.entity.namespace is Some
    &&& e.entity.namespace.unwrap()@ == rec.namespace.entity_namespace_text()
    &&& e.entity.version == Some(rec.canonical_version)
    &&& e.label is None
    &&& e.metadata_json == Some(rec.data_json)
}

/// Two namespaces with the same tenant, source of record and environment.
pub open spec fn same_namespace(a: SorNamespace, b: SorNamespace) -> bool {
    &&& a.tenant_id@ == b.tenant_id@
    &&& a.sor_id@ == b.sor_id@
    &&& opt_view(a.environment_id) == opt_view(b.environment_id)
}

/// The sequence number of a stream's last event, 0 for an empty stream.
pub open spec fn last_sequence(events: Seq<SorEventRecord>) -> u64 {
    if events.len() == 0 {
        0
    } else {
        events.last().sequence
    }
}

/// Whether a search query selects an entity.
pub open spec fn entity_matches(q: EntitySearchQuery, r: EntityRecord) -> bool {
    &&& (q.entity_types@.len() == 0 || texts_contain(q.entity_types@, r.entity.entity_type@))
    &&& (q.namespace is None || opt_view(r.entity.namespace) == opt_view(q.namespace))
    &&& match q.query {
        None => true,
        Some(t) => contains_text(r.entity.entity_id@, t@) || (r.label is Some && contains_text(
            r.label.unwrap()@,
            t@,
        )) || (r.metadata_json is Some && contains_text(r.metadata_json.unwrap()@, t@)),
    }
}

pub open spec fn entity_filter(q: EntitySearchQuery) -> spec_fn(EntityRecord) -> bool {
    |r: EntityRecord| entity_matches(q, r)
}

pub open spec fn entity_order() -> spec_fn(EntityRecord) -> Seq<Option<Seq<char>>> {
    |r: EntityRecord| entity_order_parts(r)
}

/// The entity keys of the roots of a relationship query.
pub open spec fn root_keys(q: RelationshipQuery) -> Seq<Seq<char>> {
    q.root_entities@.map_values(|e: EntityRef| entity_key_text(e))
}

/// Whether a relationship query selects a relationship.
pub open spec fn relationship_matches(q: RelationshipQuery, r: RelationshipInstance) -> bool {
    let roots = root_keys(q);
    let from = entity_key_text(r.relationship.from);
    let to = entity_key_text(r.relationship.to);
    &&& (q.relationship_type is None || q.relationship_type.unwrap()@
        == r.relationship.relationship_type@)
    &&& (roots.len() == 0 || match q.direction {
        RelationshipDirection::Outgoing => roots.contains(from),
        RelationshipDirection::Incoming => roots.contains(to),
        RelationshipDirection::Both => roots.contains(from) || roots.contains(to),
    })
}

pub open spec fn relationship_filter(q: RelationshipQuery) -> spec_fn(RelationshipInstance) -> bool {
    |r: RelationshipInstance| relationship_matches(q, r)
}

pub open spec fn relationship_order() -> spec_fn(RelationshipInstance) -> Seq<Option<Seq<char>>> {
    |r: RelationshipInstance| seq![Some(relationship_key_text(r.relationship))]
}

/// Two links for the same source, evidence id and match kind.
pub open spec fn same_link_slot(a: EntityLink, b: EntityLink) -> bool {
    &&& a.source_ref@ == b.source_ref@
    &&& opt_view(a.evidence_id) == opt_view(b.evidence_id)
    &&& a.match_kind@ == b.match_kind@
}

/// The first position of a link in the slot of `link`, or -1.
pub open spec fn first_link_slot(links: Seq<EntityLink>, link: EntityLink) -> int
    decreases links.len(),
{
    if links.len() == 0 {
        -1
    } else {
        let r = first_link_slot(links.drop_last(), link);
        if r >= 0 {
            r
        } else if same_link_slot(links.last(), link) {
            links.len() - 1
        } else {
            -1
        }
    }
}

/// The links of an entity after storing `link`: over the first link in its
/// slot, or at the end.
pub open spec fn upsert_link(links: Seq<EntityLink>, link: EntityLink) -> Seq<EntityLink> {
    let i = first_link_slot(links, link);
    if i >= 0 {
        links.update(i, link)
    } else {
        links.push(link)
    }
}

/// The entity keys of some links.
pub open spec fn link_key_seq(links: Seq<EntityLink>) -> Seq<Seq<char>> {
    links.map_values(|l: EntityLink| entity_key_text(l.entity))
}

/// The relationship keys of some relationships.
pub open spec fn relationship_key_seq(rels: Seq<RelationshipInstance>) -> Seq<Seq<char>> {
    rels.map_values(|r: RelationshipInstance| relationship_key_text(r.relationship))
}

/// The per-entity link lists after storing each of `links` in turn.
pub open spec fn links_after(
    keys: Seq<Seq<char>>,
    vals: Seq<Seq<EntityLink>>,
    links: Seq<EntityLink>,
) -> Seq<Seq<EntityLink>>
    decreases links.len(),
{
    if links.len() == 0 {
        vals
    } else {
        let k0 = puts_keys(keys, link_key_seq(links.drop_last()));
        let v0 = links_after(keys, vals, links.drop_last());
        let l = links.last();
        let k = entity_key_text(l.entity);
        put_vals(k0, v0, k, upsert_link(seq_value_at(k0, v0, k), l))
    }
}

/// Whether a link request selects a link.
pub open spec fn link_matches(req: EntityLinkRequest, l: EntityLink) -> bool {
    &&& (req.source_ref is None || req.source_ref.unwrap()@ == l.source_ref@)
    &&& (req.evidence_id is None || opt_view(l.evidence_id) == opt_view(req.evidence_id))
    &&& (req.candidate_types@.len() == 0 || texts_contain(
        req.candidate_types@,
        l.entity.entity_type@,
    ))
}

pub open spec fn link_filter(req: EntityLinkRequest) -> spec_fn(EntityLink) -> bool {
    |l: EntityLink| link_matches(req, l)
}

pub open spec fn link_entity_order() -> spec_fn(EntityLink) -> Seq<Option<Seq<char>>> {
    |l: EntityLink| link_entity_parts(l)
}

pub open spec fn link_source_order() -> spec_fn(EntityLink) -> Seq<Option<Seq<char>>> {
    |l: EntityLink| link_source_parts(l)
}

/// Why a canonical write is refused, if it is.
pub open spec fn canonical_write_refusal(
    request: CanonicalWriteRequest,
    idempotency: Seq<Seq<char>>,
    stream: Seq<SorEventRecord>,
) -> Option<Seq<char>> {
    let ev = request.event;
    let en = request.entity;
    let last = last_sequence(stream);
    if !same_namespace(ev.namespace, en.namespace) {
        Some("event and entity namespaces must match"@)
    } else if ev.entity_ref.entity_type@ != en.entity_type@ || ev.entity_ref.entity_id@
        != en.entity_id@ {
        Some("event entity_ref must target the canonical entity"@)
    } else if ev.idempotency_key is Some && idempotency.contains(
        idempotency_key_text(ev.namespace, ev.idempotency_key.unwrap()@),
    ) {
        Some(
            "idempotency key "@ + ev.idempotency_key.unwrap()@ + " was already applied"@,
        )
    } else if ev.sequence as int != last + 1 {
        Some(
            "event sequence "@ + decimal(ev.sequence as nat) + " did not follow stream sequence "@
                + decimal(last as nat),
        )
    } else {
        None
    }
}

fn clone_links(v: &Vec<EntityLink>) -> (r: Vec<EntityLink>)
    ensures
        r@ == v@,
{
    let mut r: Vec<EntityLink> = Vec::new();
    let n = v.len();
    for i in 0..n
        invariant
            n == v@.len(),
            r@ == v@.take(i as int),
    {
        r.push(v[i].clone());
        assert(r@ =~= v@.take(i + 1));
    }
    assert(v@.take(n as int) =~= v@);
    r
}

fn same_link_slot_exec(a: &EntityLink, b: &EntityLink) -> (r: bool)
    ensures
        r == same_link_slot(*a, *b),
{
    let same_evidence = match (&a.evidence_id, &b.evidence_id) {
        (None, None) => true,
        (Some(x), Some(y)) => same_text(x.as_str(), y.as_str()),
        _ => false,
    };
    same_text(a.source_ref.as_str(), b.source_ref.as_str()) && same_evidence && same_text(
        a.match_kind.as_str(),
        b.match_kind.as_str(),
    )
}

pub(crate) fn same_namespace_exec(a: &SorNamespace, b: &SorNamespace) -> (r: bool)
    ensures
        r == same_namespace(*a, *b),
{
    let same_env = match (&a.environment_id, &b.environment_id) {
        (None, None) => true,
        (Some(x), Some(y)) => same_text(x.as_str(), y.as_str()),
        _ => false,
    };
    same_text(a.tenant_id.as_str(), b.tenant_id.as_str()) && same_text(
        a.sor_id.as_str(),
        b.sor_id.as_str(),
    ) && same_env
}

fn entity_matches_exec(q: &EntitySearchQuery, r: &EntityRecord) -> (b: bool)
    ensures
        b == entity_matches(*q, *r),
{
    if q.entity_types.len() > 0 && !list_contains_text(&q.entity_types, r.entity.entity_type.as_str()) {
        return false;
    }
    match &q.namespace {
        Some(ns) => match &r.entity.namespace {
            Some(rns) => {
                if !same_text(ns.as_str(), rns.as_str()) {
                    return false;
                }
            },
            None => {
                return false;
            },
        },
        None => {},
    }
    match &q.query {
        None => true,
        Some(t) => {
            if text_contains(r.entity.entity_id.as_str(), t.as_str()) {
                return true;
            }
            let in_label = match &r.label {
                Some(l) => text_contains(l.as_str(), t.as_str()),
                None => false,
            };
            if in_label {
                return true;
            }
            match &r.metadata_json {
                Some(m) => text_contains(m.as_str(), t.as_str()),
                None => false,
            }
        },
    }
}

fn contains_key_text(keys: &Vec<String>, k: &String) -> (r: bool)
    ensures
        r == keys@.map_values(|s: String| s@).contains(k@),
{
    let n = keys.len();
    for i in 0..n
        invariant
            n == keys@.len(),
            forall|j: int| 0 <= j < i ==> keys@[j]@ != k@,
    {
        if same_text(keys[i].as_str(), k.as_str()) {
            assert(keys@.map_values(|s: String| s@)[i as int] == k@);
            return true;
        }
    }
    proof {
        let ks = keys@.map_values(|s: String| s@);
        assert forall|j: int| 0 <= j < ks.len() implies #[trigger] ks[j] != k@ by {
            assert(keys@[j]@ != k@);
        }
    }
    false
}

fn link_matches_exec(req: &EntityLinkRequest, l: &EntityLink) -> (b: bool)
    ensures
        b == link_matches(*req, *l),
{
    match &req.source_ref {
        Some(s) => {
            if !same_text(s.as_str(), l.source_ref.as_str()) {
                return false;
            }
        },
        None => {},
    }
    match &req.evidence_id {
        Some(e) => match &l.evidence_id {
            Some(le) => {
                if !same_text(e.as_str(), le.as_str()) {
                    return false;
                }
            },
            None => {
                return false;
            },
        },
        None => {},
    }
    req.candidate_types.len() == 0 || list_contains_text(
        &req.candidate_types,
        l.entity.entity_type.as_str(),
    )
}

impl FoundationDbProvider {




    fn put_generic_view(&mut self, record: &CanonicalEntityRecord)
        ensures
            old(self).relationships_keyed() ==> final(self).relationships_keyed(),
            put_into(
                old(self).entity_store(),
                final(self).entity_store(),
                canonical_ref_key_text(*record),
                stored_at(final(self).entity_store(), canonical_ref_key_text(*record)),
            ),
            is_generic_view_of(
                stored_at(final(self).entity_store(), canonical_ref_key_text(*record)),
                *record,
            ),
            final(self).agrees_outside(*old(self), set![StoreName::Entities]),
    {
        let _count: usize = self.entities.len();
        let generic = EntityRecord {
            entity: record.entity_ref(),
            label: None,
            metadata_json: Some(record.data_json.clone()),
        };
        let k = entity_key(&generic.entity);
        assert(k@ =~= canonical_ref_key_text(*record));
        let ghost g = generic;
        self.entities.put(k, generic);
        proof {
            let ks = self.entities.key_seq();
            assert(ks.contains(k@)) by {
                if old(self).entities.key_seq().contains(k@) {
                    let j = old(self).entities.key_seq().index_of(k@);
                    assert(ks[j] == k@);
                } else {
                    assert(ks[ks.len() - 1] == k@);
                }
            }
            self.entities.lemma_index_of(ks.index_of(k@));
            if old(self).entities.key_seq().contains(k@) {
                old(self).entities.lemma_index_of(old(self).entities.key_seq().index_of(k@));
            }
            assert(stored_at(self.entities, k@) == g);
        }
    }


    /// Stores a relationship under its relationship key.
    pub fn upsert_relationship(&mut self, relationship: RelationshipInstance) -> (r: Result<
        RelationshipInstance,
        ProviderError,
    >)
        ensures
            old(self).relationships_keyed() ==> final(self).relationships_keyed(),
            r == Ok::<RelationshipInstance, ProviderError>(relationship),
            put_into(
                old(self).relationship_store(),
                final(self).relationship_store(),
                relationship_key_text(relationship.relationship),
                relationship,
            ),
            final(self).agrees_outside(*old(self), set![StoreName::Relationships]),
    {
        let k = relationship_key(&relationship.relationship);
        self.relationships.put(k, relationship.clone());
        Ok(relationship)
    }


    fn upsert_link_in_state(&mut self, link: EntityLink)
        ensures
            old(self).relationships_keyed() ==> final(self).relationships_keyed(),
            ({
                let k = entity_key_text(link.entity);
                let ks = old(self).link_store().key_seq();
                let vs = old(self).link_store().seq_vals();
                &&& final(self).link_store().key_seq() == put_keys(ks, k)
                &&& final(self).link_store().seq_vals() == put_vals(
                    ks,
                    vs,
                    k,
                    upsert_link(seq_value_at(ks, vs, k), link),
                )
            }),
            final(self).agrees_outside(*old(self), set![StoreName::EvidenceLinks]),
    {
        let k = entity_key(&link.entity);
        let mut links: Vec<EntityLink> = match self.evidence_links.get_seq(k.as_str()) {
            Some(v) => clone_links(v),
            None => Vec::new(),
        };
        let ghost cur = links@;
        let n = links.len();
        let i = find_link_slot(&links, &link);
        if i < n {
            links.set(i, link);
        } else {
            links.push(link);
        }
        self.evidence_links.put_seq(k, links);
    }

    /// Stores an evidence link among the links of its entity.
    pub fn upsert_evidence_link(&mut self, link: EntityLink) -> (r: Result<EntityLink, ProviderError>)
        ensures
            old(self).relationships_keyed() ==> final(self).relationships_keyed(),
            r == Ok::<EntityLink, ProviderError>(link),
            ({
                let k = entity_key_text(link.entity);
                let ks = old(self).link_store().key_seq();
                let vs = old(self).link_store().seq_vals();
                &&& final(self).link_store().key_seq() == put_keys(ks, k)
                &&& final(self).link_store().seq_vals() == put_vals(
                    ks,
                    vs,
                    k,
                    upsert_link(seq_value_at(ks, vs, k), link),
                )
            }),
            final(self).agrees_outside(*old(self), set![StoreName::EvidenceLinks]),
    {
        self.upsert_link_in_state(link.clone());
        Ok(link)
    }

    /// The links of an entity, in (source, evidence id, match kind) order.
    pub fn evidence_links_for_entity(&self, entity: &EntityRef) -> (r: Result<
        Vec<EntityLink>,
        ProviderError,
    >)
        ensures
            ({
                let all = seq_value_at(
                    self.link_store().key_seq(),
                    self.link_store().seq_vals(),
                    entity_key_text(*entity),
                );
                r matches Ok(found) && selection_by_parts(
                    found@,
                    all,
                    link_source_order(),
                    all.len(),
                )
            }),
    {
        let k = entity_key(entity);
        let all: Vec<EntityLink> = match self.evidence_links.get_seq(k.as_str()) {
            Some(v) => clone_links(v),
            None => Vec::new(),
        };
        let m = all.len();
        let mut keys: Vec<TupleKey> = Vec::new();
        for i in 0..m
            invariant
                m == all@.len(),
                keys@.len() == i,
                forall|j: int| 0 <= j < i ==> (#[trigger] keys@[j]).parts_view()
                    == link_source_parts(all@[j]),
        {
            keys.push(link_source_key(&all[i]));
        }
        let ghost key_view = keys@;
        let order = sorted_order(keys);
        let mut found: Vec<EntityLink> = Vec::new();
        for i in 0..m
            invariant
                m == all@.len(),
                is_permutation(order@, m as nat),
                found@.len() == i,
                forall|j: int| 0 <= j < i ==> found@[j] == all@[order@[j] as int],
        {
            found.push(all[order[i]].clone());
        }
        proof {
            lemma_selection(found@, all@, key_view, order@, link_source_order(), m as nat);
        }
        Ok(found)
    }

}

fn find_link_slot(links: &Vec<EntityLink>, link: &EntityLink) -> (r: usize)
    ensures
        r <= links@.len(),
        first_link_slot(links@, *link) == if r < links@.len() {
            r as int
        } else {
            -1
        },
{
    let n = links.len();
    for i in 0..n
        invariant
            n == links@.len(),
            first_link_slot(links@.take(i as int), *link) == -1,
    {
        assert(links@.take(i + 1).drop_last() =~= links@.take(i as int));
        if same_link_slot_exec(&links[i], link) {
            proof {
                lemma_first_link_slot_prefix(links@, *link, i as int);
            }
            return i;
        }
    }
    proof {
        lemma_first_link_slot_prefix(links@, *link, n as int);
    }
    n
}

proof fn lemma_first_link_slot_prefix(links: Seq<EntityLink>, link: EntityLink, i: int)
    requires
        0 <= i <= links.len(),
        first_link_slot(links.take(i), link) == -1,
        i < links.len() ==> same_link_slot(links[i], link),
    ensures
        i < links.len() ==> first_link_slot(links, link) == i,
        i == links.len() ==> first_link_slot(links, link) == -1,
    decreases links.len() - i,
{
    if i == links.len() {
        assert(links.take(i) =~= links);
    } else {
        lemma_first_link_slot_extend(links, link, links.len() as int, i);
        assert(links.take(links.len() as int) =~= links);
    }
}

proof fn lemma_first_link_slot_extend(links: Seq<EntityLink>, link: EntityLink, n: int, i: int)
    requires
        0 <= i < n <= links.len(),
        first_link_slot(links.take(i), link) == -1,
        same_link_slot(links[i], link),
    ensures
        first_link_slot(links.take(n), link) == i,
    decreases n - i,
{
    if n == i + 1 {
        assert(links.take(n).drop_last() =~= links.take(i));
    } else {
        lemma_first_link_slot_extend(links, link, n - 1, i);
        assert(links.take(n).drop_last() =~= links.take(n - 1));
    }
    if n == links.len() {
    }
}

impl FoundationDbProvider {
    /// The sequence number of the last event of a canonical stream.
    fn last_canonical_sequence(&self, stream_id: &str) -> (r: u64)
        ensures
            r == last_sequence(
                seq_value_at(
                    self.canonical_stream_store().key_seq(),
                    self.canonical_stream_store().seq_vals(),
                    stream_id@,
                ),
            ),
    {
        match self.canonical_streams.get_seq(stream_id) {
            Some(events) => {
                if events.len() == 0 {
                    0
                } else {
                    events[events.len() - 1].sequence
                }
            },
            None => 0,
        }
    }

}

impl EventStoreProvider for FoundationDbProvider {
    /// Appends an event; with an expected revision, only when it matches the
    /// stream's last revision.
    fn append_event(&mut self, request: AppendEventRequest) -> (r: Result<
        EventRecord,
        ProviderError,
    >)
        ensures
            old(self).relationships_keyed() ==> final(self).relationships_keyed(),
            ({
                let last = last_revision(old(self).stream(request.stream_id@));
                match r {
                    Ok(record) => {
                        &&& request.expected_revision is None || request.expected_revision
                            == Some(last)
                        &&& last < u64::MAX
                        &&& record == EventRecord {
                            stream_id: request.stream_id,
                            revision: (last + 1) as u64,
                            event_type: request.event_type,
                            payload: request.payload,
                        }
                        &&& final(self).stream(request.stream_id@) == old(self).stream(
                            request.stream_id@,
                        ).push(record)
                        &&& final(self).streams_view().remove(request.stream_id@)
                            == old(self).streams_view().remove(request.stream_id@)
                        &&& final(self).agrees_outside(*old(self), set![StoreName::Streams])
                    },
                    Err(e) => {
                        &&& if request.expected_revision is Some && request.expected_revision != Some(last) {
                            e matches ProviderError::Validation(m) && m@ == revision_mismatch_message(
                                request.expected_revision.unwrap(),
                                last,
                            )
                        } else {
                            last == u64::MAX && (e matches ProviderError::Validation(m) && m@
                                == "stream revision overflow"@)
                        }
                        &&& *final(self) == *old(self)
                    },
                }
            }),
    {
        proof {
            reveal_strlit("expected revision ");
            reveal_strlit(" did not match stream revision ");
            reveal_strlit("stream revision overflow");
        }
        let last = self.last_stream_revision(request.stream_id.as_str());
        match request.expected_revision {
            Some(expected) => {
                if expected != last {
                    let mut message = owned("expected revision ");
                    push_str(&mut message, decimal_string(expected).as_str());
                    push_str(&mut message, " did not match stream revision ");
                    push_str(&mut message, decimal_string(last).as_str());
                    return Err(ProviderError::Validation(message));
                }
            },
            None => {},
        }
        if last == u64::MAX {
            return Err(ProviderError::Validation(owned("stream revision overflow")));
        }
        let record = EventRecord {
            stream_id: request.stream_id.clone(),
            revision: last + 1,
            event_type: request.event_type,
            payload: request.payload,
        };
        self.streams.append(request.stream_id, record.clone());
        Ok(record)
    }

    /// Events of a stream from a revision on, at most `limit` of them.
    fn read_event_stream(&self, request: EventStreamRequest) -> (r: Result<
        Vec<EventRecord>,
        ProviderError,
    >)
        ensures
            r matches Ok(events) && events@ == stream_slice(
                self.stream(request.stream_id@),
                request.from_revision,
                request.limit as nat,
            ),
    {
        let mut out: Vec<EventRecord> = Vec::new();
        match self.streams.get(request.stream_id.as_str()) {
            Some(events) => {
                let ghost pred = |e: EventRecord| e.revision >= request.from_revision;
                let n = events.len();
                for i in 0..n
                    invariant
                        n == events@.len(),
                        events@ == self.stream(request.stream_id@),
                        pred == (|e: EventRecord| e.revision >= request.from_revision),
                        out@ == take_at_most(
                            events@.take(i as int).filter(pred),
                            request.limit as nat,
                        ),
                {
                    proof {
                        assert(events@.take(i + 1) =~= events@.take(i as int).push(events@[i as int]));
                        events@.take(i as int).lemma_filter_push(events@[i as int], pred);
                    }
                    if events[i].revision >= request.from_revision && out.len() < request.limit {
                        out.push(events[i].clone());
                    }
                }
                assert(events@.take(n as int) =~= events@);
            },
            None => {
                proof {
                    reveal(Seq::filter);
                }
            },
        }
        Ok(out)
    }
}

impl ProjectionProvider for FoundationDbProvider {
    /// Persists a projection snapshot and its checkpoint `name@revision`.
    fn persist_projection(&mut self, request: PersistProjectionRequest) -> (r: Result<
        ProjectionRecord,
        ProviderError,
    >)
        ensures
            old(self).relationships_keyed() ==> final(self).relationships_keyed(),
            r matches Ok(record) && {
                &&& record == ProjectionRecord {
                    projection_name: request.projection_name,
                    projection_key: request.projection_key,
                    state_json: request.state_json,
                    last_applied_revision: request.last_applied_revision,
                }
                &&& final(self).projections_view().contains_key(
                    projection_slot_text(request.projection_name@, request.projection_key@),
                )
                &&& final(self).projections_view() == old(self).projections_view().insert(
                    projection_slot_text(request.projection_name@, request.projection_key@),
                    final(self).projections_view()[projection_slot_text(
                        request.projection_name@,
                        request.projection_key@,
                    )],
                )
                &&& final(self).projections_view()[projection_slot_text(
                    request.projection_name@,
                    request.projection_key@,
                )].record == record
                &&& final(self).projections_view()[projection_slot_text(
                    request.projection_name@,
                    request.projection_key@,
                )].checkpoint.projection_name == request.projection_name
                &&& final(self).projections_view()[projection_slot_text(
                    request.projection_name@,
                    request.projection_key@,
                )].checkpoint.checkpoint_token@ == checkpoint_token_text(
                    request.projection_name@,
                    request.last_applied_revision,
                )
                &&& final(self).agrees_outside(*old(self), set![StoreName::Projections])
            },
    {
        let slot = projection_slot(request.projection_name.as_str(), request.projection_key.as_str());
        let record = ProjectionRecord {
            projection_name: request.projection_name.clone(),
            projection_key: request.projection_key,
            state_json: request.state_json,
            last_applied_revision: request.last_applied_revision,
        };
        let checkpoint = ProjectionCheckpoint {
            projection_name: request.projection_name.clone(),
            checkpoint_token: checkpoint_token(
                request.projection_name.as_str(),
                request.last_applied_revision,
            ),
        };
        self.projections.put(slot, ProjectionState { record: record.clone(), checkpoint });
        Ok(record)
    }

    /// The projection stored under a name and key.
    fn get_projection(&self, projection_name: &str, projection_key: &str) -> (r: Result<
        Option<ProjectionRecord>,
        ProviderError,
    >)
        ensures
            ({
                let slot = projection_slot_text(projection_name@, projection_key@);
                r matches Ok(found) && match found {
                    Some(record) => self.projections_view().contains_key(slot)
                        && record == self.projections_view()[slot].record,
                    None => !self.projections_view().contains_key(slot),
                }
            }),
    {
        let slot = projection_slot(projection_name, projection_key);
        match self.projections.get(slot.as_str()) {
            Some(state) => Ok(Some(state.record.clone())),
            None => Ok(None),
        }
    }

    /// The checkpoint a rebuild of a projection reaches.
    fn rebuild_projection(&self, request: ProjectionRebuildRequest) -> (r: Result<
        ProjectionCheckpoint,
        ProviderError,
    >)
        ensures
            r matches Ok(checkpoint) && checkpoint.projection_name == request.projection_name
                && checkpoint.checkpoint_token@ == checkpoint_token_text(
                request.projection_name@,
                rebuild_target(request.from_checkpoint, self.highest_revision()),
            ),
    {
        let target: u64 = match &request.from_checkpoint {
            Some(token) => match text_after_last(token.as_str(), '@') {
                Some(rev) => match parse_u64(rev.as_str()) {
                    Some(v) => v,
                    None => self.highest_stored_revision(),
                },
                None => self.highest_stored_revision(),
            },
            None => self.highest_stored_revision(),
        };
        Ok(
            ProjectionCheckpoint {
                projection_name: request.projection_name.clone(),
                checkpoint_token: checkpoint_token(request.projection_name.as_str(), target),
            },
        )
    }
}

impl EntityStoreProvider for FoundationDbProvider {
    /// Stores an entity under its entity key.
    fn upsert_entity(&mut self, entity: EntityRecord) -> (r: Result<EntityRecord, ProviderError>)
        ensures
            old(self).relationships_keyed() ==> final(self).relationships_keyed(),
            r == Ok::<EntityRecord, ProviderError>(entity),
            put_into(
                old(self).entity_store(),
                final(self).entity_store(),
                entity_key_text(entity.entity),
                entity,
            ),
            final(self).agrees_outside(*old(self), set![StoreName::Entities]),
    {
        let k = entity_key(&entity.entity);
        self.entities.put(k, entity.clone());
        Ok(entity)
    }

    /// The entity stored under the key of `entity`.
    fn get_entity(&self, entity: EntityRef) -> (r: Result<Option<EntityRecord>, ProviderError>)
        ensures
            r matches Ok(found) && found == value_at(
                self.entity_store().key_seq(),
                self.entity_store().val_seq(),
                entity_key_text(entity),
            ),
    {
        let k = entity_key(&entity);
        match self.entities.find(k.as_str()) {
            Some(i) => Ok(Some(self.entities.val_at(i).clone())),
            None => Ok(None),
        }
    }

    /// Entities selected by a query, in (type, id, namespace, version) order,
    /// at most `limit` of them.
    fn search_entities(&self, request: EntitySearchQuery) -> (r: Result<
        Vec<EntityRecord>,
        ProviderError,
    >)
        ensures
            r matches Ok(found) && selection_by_parts(
                found@,
                self.entity_store().val_seq().filter(entity_filter(request)),
                entity_order(),
                request.limit as nat,
            ),
    {
        let ghost pred = entity_filter(request);
        let ghost vals = self.entities.val_seq();
        let n = self.entities.len();
        let mut all: Vec<EntityRecord> = Vec::new();
        for i in 0..n
            invariant
                n == vals.len(),
                vals == self.entities.val_seq(),
                n == self.entities.key_seq().len(),
                pred == entity_filter(request),
                all@ == vals.take(i as int).filter(pred),
        {
            let rec = self.entities.val_at(i);
            proof {
                assert(vals.take(i + 1) =~= vals.take(i as int).push(vals[i as int]));
                vals.take(i as int).lemma_filter_push(vals[i as int], pred);
            }
            if entity_matches_exec(&request, rec) {
                all.push(rec.clone());
            }
        }
        assert(vals.take(n as int) =~= vals);
        let m = all.len();
        let mut keys: Vec<TupleKey> = Vec::new();
        for i in 0..m
            invariant
                m == all@.len(),
                keys@.len() == i,
                forall|j: int| 0 <= j < i ==> (#[trigger] keys@[j]).parts_view()
                    == entity_order_parts(all@[j]),
        {
            keys.push(entity_order_key(&all[i]));
        }
        let ghost key_view = keys@;
        let order = sorted_order(keys);
        let take = if request.limit < m {
            request.limit
        } else {
            m
        };
        let mut found: Vec<EntityRecord> = Vec::new();
        for i in 0..take
            invariant
                take <= m,
                m == all@.len(),
                is_permutation(order@, m as nat),
                found@.len() == i,
                forall|j: int| 0 <= j < i ==> found@[j] == all@[order@[j] as int],
        {
            found.push(all[order[i]].clone());
        }
        proof {
            lemma_selection(found@, all@, key_view, order@, entity_order(), request.limit as nat);
        }
        Ok(found)
    }
}

impl CanonicalEntityStoreProvider for FoundationDbProvider {
    /// Stores a canonical entity and its generic projection.
    fn upsert_canonical_entity(&mut self, record: CanonicalEntityRecord) -> (r: Result<
        CanonicalEntityRecord,
        ProviderError,
    >)
        ensures
            old(self).relationships_keyed() ==> final(self).relationships_keyed(),
            r == Ok::<CanonicalEntityRecord, ProviderError>(record),
            put_into(
                old(self).canonical_store(),
                final(self).canonical_store(),
                canonical_key_text(record.namespace, record.entity_type@, record.entity_id@),
                record,
            ),
            put_into(
                old(self).entity_store(),
                final(self).entity_store(),
                canonical_ref_key_text(record),
                stored_at(final(self).entity_store(), canonical_ref_key_text(record)),
            ),
            is_generic_view_of(
                stored_at(final(self).entity_store(), canonical_ref_key_text(record)),
                record,
            ),
            final(self).agrees_outside(
                *old(self),
                set![StoreName::CanonicalEntities, StoreName::Entities],
            ),
    {
        let ck = canonical_entity_key(
            &record.namespace,
            record.entity_type.as_str(),
            record.entity_id.as_str(),
        );
        self.canonical_entities.put(ck, record.clone());
        self.put_generic_view(&record);
        Ok(record)
    }

    /// The canonical entity stored for a namespace, type and id.
    fn get_canonical_entity(
        &self,
        namespace: SorNamespace,
        entity_type: &str,
        entity_id: &str,
    ) -> (r: Result<Option<CanonicalEntityRecord>, ProviderError>)
        ensures
            r matches Ok(found) && found == value_at(
                self.canonical_store().key_seq(),
                self.canonical_store().val_seq(),
                canonical_key_text(namespace, entity_type@, entity_id@),
            ),
    {
        let k = canonical_entity_key(&namespace, entity_type, entity_id);
        match self.canonical_entities.find(k.as_str()) {
            Some(i) => Ok(Some(self.canonical_entities.val_at(i).clone())),
            None => Ok(None),
        }
    }
}

impl CanonicalWriteProvider for FoundationDbProvider {
    /// Applies a canonical write atomically: the event is appended to its
    /// stream, the entity and its generic projection are stored, then the
    /// relationships and entity links, and the idempotency key is recorded.
    /// A refused write changes nothing.
    fn apply_canonical_write(&mut self, request: CanonicalWriteRequest) -> (r: Result<
        CanonicalWriteResult,
        ProviderError,
    >)
        ensures
            old(self).relationships_keyed() ==> final(self).relationships_keyed(),
            ({
                let ev = request.event;
                let en = request.entity;
                let cs = old(self).canonical_stream_store();
                let refusal = canonical_write_refusal(
                    request,
                    old(self).idempotency_store().key_seq(),
                    seq_value_at(cs.key_seq(), cs.seq_vals(), ev.stream_id@),
                );
                match r {
                    Err(e) => {
                        &&& refusal is Some
                        &&& e matches ProviderError::Validation(m) && m@ == refusal.unwrap()
                        &&& *final(self) == *old(self)
                    },
                    Ok(result) => {
                        let gk = canonical_ref_key_text(en);
                        let rels = old(self).relationship_store();
                        let links = old(self).link_store();
                        &&& refusal is None
                        &&& result == CanonicalWriteResult {
                            event: ev,
                            entity: en,
                            relationships_written: request.relationships@.len() as usize,
                            entity_links_written: request.entity_links@.len() as usize,
                        }
                        &&& final(self).canonical_stream_store().key_seq() == put_keys(
                            cs.key_seq(),
                            ev.stream_id@,
                        )
                        &&& final(self).canonical_stream_store().seq_vals() == put_vals(
                            cs.key_seq(),
                            cs.seq_vals(),
                            ev.stream_id@,
                            seq_value_at(cs.key_seq(), cs.seq_vals(), ev.stream_id@).push(ev),
                        )
                        &&& put_into(
                            old(self).canonical_store(),
                            final(self).canonical_store(),
                            canonical_key_text(en.namespace, en.entity_type@, en.entity_id@),
                            en,
                        )
                        &&& put_into(
                            old(self).entity_store(),
                            final(self).entity_store(),
                            gk,
                            stored_at(final(self).entity_store(), gk),
                        )
                        &&& is_generic_view_of(stored_at(final(self).entity_store(), gk), en)
                        &&& final(self).relationship_store().key_seq() == puts_keys(
                            rels.key_seq(),
                            relationship_key_seq(request.relationships@),
                        )
                        &&& final(self).relationship_store().val_seq() == puts_vals(
                            rels.key_seq(),
                            rels.val_seq(),
                            relationship_key_seq(request.relationships@),
                            request.relationships@,
                        )
                        &&& final(self).link_store().key_seq() == puts_keys(
                            links.key_seq(),
                            link_key_seq(request.entity_links@),
                        )
                        &&& final(self).link_store().seq_vals() == links_after(
                            links.key_seq(),
                            links.seq_vals(),
                            request.entity_links@,
                        )
                        &&& match ev.idempotency_key {
                            Some(k) => put_into(
                                old(self).idempotency_store(),
                                final(self).idempotency_store(),
                                idempotency_key_text(ev.namespace, k@),
                                ev.event_id,
                            ),
                            None => final(self).idempotency_store() == old(
                                self,
                            ).idempotency_store(),
                        }
                        &&& final(self).agrees_outside(
                            *old(self),
                            set![
                                StoreName::CanonicalStreams,
                                StoreName::CanonicalEntities,
                                StoreName::IdempotencyKeys,
                                StoreName::Entities,
                                StoreName::Relationships,
                                StoreName::EvidenceLinks,
                            ],
                        )
                    },
                }
            }),
    {
        if !same_namespace_exec(&request.event.namespace, &request.entity.namespace) {
            return Err(ProviderError::Validation(owned("event and entity namespaces must match")));
        }
        if !same_text(request.event.entity_ref.entity_type.as_str(), request.entity.entity_type.as_str())
            || !same_text(request.event.entity_ref.entity_id.as_str(), request.entity.entity_id.as_str()) {
            return Err(
                ProviderError::Validation(owned("event entity_ref must target the canonical entity")),
            );
        }
        let idem_slot: Option<String> = match &request.event.idempotency_key {
            Some(key) => {
                let slot = idempotency_slot(&request.event.namespace, key.as_str());
                match self.idempotency_keys.find(slot.as_str()) {
                    Some(_) => {
                        let mut message = owned("idempotency key ");
                        push_str(&mut message, key.as_str());
                        push_str(&mut message, " was already applied");
                        return Err(ProviderError::Validation(message));
                    },
                    None => Some(slot),
                }
            },
            None => None,
        };
        let last = self.last_canonical_sequence(request.event.stream_id.as_str());
        if last == u64::MAX || request.event.sequence != last + 1 {
            let mut message = owned("event sequence ");
            push_str(&mut message, decimal_string(request.event.sequence).as_str());
            push_str(&mut message, " did not follow stream sequence ");
            push_str(&mut message, decimal_string(last).as_str());
            return Err(ProviderError::Validation(message));
        }
        let ghost snap = *self;
        self.canonical_streams.append(request.event.stream_id.clone(), request.event.clone());
        let ck = canonical_entity_key(
            &request.entity.namespace,
            request.entity.entity_type.as_str(),
            request.entity.entity_id.as_str(),
        );
        self.canonical_entities.put(ck, request.entity.clone());
        self.put_generic_view(&request.entity);
        let ghost s2 = *self;
        let ghost rels0 = self.relationships;
        let nr = request.relationships.len();
        for i in 0..nr
            invariant
                nr == request.relationships@.len(),
                self.relationships.key_seq() == puts_keys(
                    rels0.key_seq(),
                    relationship_key_seq(request.relationships@.take(i as int)),
                ),
                self.relationships.val_seq() == puts_vals(
                    rels0.key_seq(),
                    rels0.val_seq(),
                    relationship_key_seq(request.relationships@.take(i as int)),
                    request.relationships@.take(i as int),
                ),
                self.config == s2.config,
                self.streams == s2.streams,
                self.projections == s2.projections,
                self.idempotency_keys == s2.idempotency_keys,
                self.evidence_links == s2.evidence_links,
                self.canonical_streams == s2.canonical_streams,
                self.canonical_entities == s2.canonical_entities,
                self.entities == s2.entities,
                rels0 == s2.relationships,
                old(self).relationships_keyed() ==> keyed_relationships(
                    self.relationships.key_seq(),
                    self.relationships.val_seq(),
                ),
        {
            let rel = request.relationships[i].clone();
            let k = relationship_key(&rel.relationship);
            let ghost pre = self.relationships;
            let ghost rv = rel;
            self.relationships.put(k, rel);
            proof {
                if old(self).relationships_keyed() {
                    lemma_put_keeps_keyed(pre.key_seq(), pre.val_seq(), rv);
                }
                let t = request.relationships@.take(i + 1);
                assert(t.drop_last() =~= request.relationships@.take(i as int));
                assert(relationship_key_seq(t).drop_last() =~= relationship_key_seq(
                    request.relationships@.take(i as int),
                ));
            }
        }
        assert(request.relationships@.take(nr as int) =~= request.relationships@);
        let ghost s3 = *self;
        let ghost links0 = self.evidence_links;
        let nl = request.entity_links.len();
        for i in 0..nl
            invariant
                nl == request.entity_links@.len(),
                self.evidence_links.key_seq() == puts_keys(
                    links0.key_seq(),
                    link_key_seq(request.entity_links@.take(i as int)),
                ),
                self.evidence_links.seq_vals() == links_after(
                    links0.key_seq(),
                    links0.seq_vals(),
                    request.entity_links@.take(i as int),
                ),
                self.config == s3.config,
                self.streams == s3.streams,
                self.projections == s3.projections,
                self.idempotency_keys == s3.idempotency_keys,
                self.canonical_streams == s3.canonical_streams,
                self.canonical_entities == s3.canonical_entities,
                self.entities == s3.entities,
                self.relationships == s3.relationships,
                links0 == s3.evidence_links,
        {
            let link = request.entity_links[i].clone();
            self.upsert_link_in_state(link);
            proof {
                let t = request.entity_links@.take(i + 1);
                assert(t.drop_last() =~= request.entity_links@.take(i as int));
                assert(link_key_seq(t).drop_last() =~= link_key_seq(
                    request.entity_links@.take(i as int),
                ));
            }
        }
        assert(request.entity_links@.take(nl as int) =~= request.entity_links@);
        match idem_slot {
            Some(slot) => {
                self.idempotency_keys.put(slot, request.event.event_id.clone());
            },
            None => {},
        }
        let relationships_written = request.relationships.len();
        let entity_links_written = request.entity_links.len();
        Ok(
            CanonicalWriteResult {
                event: request.event,
                entity: request.entity,
                relationships_written,
                entity_links_written,
            },
        )
    }
}

impl OntologyGraphProvider for FoundationDbProvider {
    /// Relationships selected by a query, in relationship-key order, at most
    /// `limit` of them.
    fn query_relationships(&self, request: RelationshipQuery) -> (r: Result<
        Vec<RelationshipInstance>,
        ProviderError,
    >)
        ensures
            r matches Ok(found) && selection_by_parts(
                found@,
                self.relationship_store().val_seq().filter(relationship_filter(request)),
                relationship_order(),
                request.limit as nat,
            ),
    {
        let mut roots: Vec<String> = Vec::new();
        let nr = request.root_entities.len();
        for i in 0..nr
            invariant
                nr == request.root_entities@.len(),
                roots@.map_values(|s: String| s@) =~= root_keys(request).take(i as int),
        {
            let k = entity_key(&request.root_entities[i]);
            let ghost before = roots@;
            roots.push(k);
            assert(roots@.map_values(|s: String| s@) =~= before.map_values(|s: String| s@).push(
                k@,
            ));
        }
        assert(root_keys(request).take(nr as int) =~= root_keys(request));
        let ghost pred = relationship_filter(request);
        let ghost vals = self.relationships.val_seq();
        let n = self.relationships.len();
        let mut all: Vec<RelationshipInstance> = Vec::new();
        for i in 0..n
            invariant
                n == vals.len(),
                vals == self.relationships.val_seq(),
                n == self.relationships.key_seq().len(),
                pred == relationship_filter(request),
                roots@.map_values(|s: String| s@) == root_keys(request),
                all@ == vals.take(i as int).filter(pred),
        {
            let rel = self.relationships.val_at(i);
            proof {
                assert(vals.take(i + 1) =~= vals.take(i as int).push(vals[i as int]));
                vals.take(i as int).lemma_filter_push(vals[i as int], pred);
            }
            let type_ok = match &request.relationship_type {
                Some(t) => same_text(t.as_str(), rel.relationship.relationship_type.as_str()),
                None => true,
            };
            let root_ok = if roots.len() == 0 {
                true
            } else {
                let from = entity_key(&rel.relationship.from);
                let to = entity_key(&rel.relationship.to);
                match request.direction {
                    RelationshipDirection::Outgoing => contains_key_text(&roots, &from),
                    RelationshipDirection::Incoming => contains_key_text(&roots, &to),
                    RelationshipDirection::Both => contains_key_text(&roots, &from)
                        || contains_key_text(&roots, &to),
                }
            };
            if type_ok && root_ok {
                all.push(rel.clone());
            }
        }
        assert(vals.take(n as int) =~= vals);
        let m = all.len();
        let mut keys: Vec<TupleKey> = Vec::new();
        for i in 0..m
            invariant
                m == all@.len(),
                keys@.len() == i,
                forall|j: int| 0 <= j < i ==> (#[trigger] keys@[j]).parts_view() == seq![
                    Some(relationship_key_text(all@[j].relationship)),
                ],
        {
            let mut parts: Vec<Option<String>> = Vec::new();
            parts.push(Some(relationship_key(&all[i].relationship)));
            let k = TupleKey { parts };
            assert(k.parts_view() =~= seq![Some(relationship_key_text(all@[i as int].relationship))]);
            keys.push(k);
        }
        let ghost key_view = keys@;
        let order = sorted_order(keys);
        let take = if request.limit < m {
            request.limit
        } else {
            m
        };
        let mut found: Vec<RelationshipInstance> = Vec::new();
        for i in 0..take
            invariant
                take <= m,
                m == all@.len(),
                is_permutation(order@, m as nat),
                found@.len() == i,
                forall|j: int| 0 <= j < i ==> found@[j] == all@[order@[j] as int],
        {
            found.push(all[order[i]].clone());
        }
        proof {
            lemma_selection(
                found@,
                all@,
                key_view,
                order@,
                relationship_order(),
                request.limit as nat,
            );
        }
        Ok(found)
    }

    /// Paths from `request.from` to `request.to` over the stored relationships.
    fn find_paths(&self, request: PathQuery) -> (r: Result<Vec<OntologyPath>, ProviderError>)
        ensures
            r matches Ok(paths) && answers_path_query(
                paths@,
                request,
                self.relationship_store().val_seq(),
            ),
            r matches Ok(paths) && (distinct_refs(self.relationship_store().val_seq()) ==> distinct_paths(paths@)),
            r matches Ok(paths) && (self.relationships_keyed() ==> distinct_paths(paths@)),
            r matches Ok(paths) && (self.relationships_keyed() ==> cut_in_search_order(
                paths@,
                request,
                self.relationship_store().val_seq(),
            )),
            r matches Ok(paths) && (request.limit == 0 ==> paths@.len() == 0),
            r matches Ok(paths) && (paths@.len() == 0 || paths@.len() < request.limit
                + self.relationship_store().val_seq().len()),
    {
        let n = self.relationships.len();
        let mut rels: Vec<RelationshipInstance> = Vec::new();
        for i in 0..n
            invariant
                n == self.relationships.key_seq().len(),
                n == self.relationships.val_seq().len(),
                rels@ == self.relationships.val_seq().take(i as int),
        {
            rels.push(self.relationships.val_at(i).clone());
            assert(rels@ =~= self.relationships.val_seq().take(i + 1));
        }
        assert(self.relationships.val_seq().take(n as int) =~= self.relationships.val_seq());
        proof {
            if self.relationships_keyed() {
                let ks = self.relationships.key_seq();
                let vs = self.relationships.val_seq();
                assert forall|i: int, j: int| 0 <= i < j < vs.len() implies (#[trigger] vs[i]).relationship
                    != (#[trigger] vs[j]).relationship by {
                    assert(ks[i] == relationship_key_text(vs[i].relationship));
                    assert(ks[j] == relationship_key_text(vs[j].relationship));
                    assert(ks[i] != ks[j]);
                }
                assert(distinct_refs(vs));
                assert forall|i: int, j: int| 0 <= i < j < vs.len() implies relationship_key_text((#[trigger] vs[i]).relationship)
                    != relationship_key_text((#[trigger] vs[j]).relationship) by {
                    assert(ks[i] == relationship_key_text(vs[i].relationship));
                    assert(ks[j] == relationship_key_text(vs[j].relationship));
                    assert(ks[i] != ks[j]);
                }
                assert(distinct_rel_keys(vs));
            }
        }
        Ok(find_paths_in(&rels, &request))
    }
}

impl EntityLinkProvider for FoundationDbProvider {
    /// Links selected by a request, in (entity key, source, evidence id) order.
    fn link_entities(&self, request: EntityLinkRequest) -> (r: Result<
        Vec<EntityLink>,
        ProviderError,
    >)
        ensures
            ({
                let all = concat_all(self.link_store().seq_vals()).filter(link_filter(request));
                r matches Ok(found) && selection_by_parts(
                    found@,
                    all,
                    link_entity_order(),
                    all.len(),
                )
            }),
    {
        let ghost pred = link_filter(request);
        let ghost vals = self.evidence_links.seq_vals();
        let n = self.evidence_links.len();
        let mut all: Vec<EntityLink> = Vec::new();
        for i in 0..n
            invariant
                n == vals.len(),
                vals == self.evidence_links.seq_vals(),
                n == self.evidence_links.key_seq().len(),
                self.evidence_links.well_formed(),
                pred == link_filter(request),
                all@ == concat_all(vals.take(i as int)).filter(pred),
        {
            let links = self.evidence_links.val_at(i);
            let m = links.len();
            assert(links@ == vals[i as int]);
            for j in 0..m
                invariant
                    m == links@.len(),
                    links@ == vals[i as int],
                    pred == link_filter(request),
                    all@ == (concat_all(vals.take(i as int)) + links@.take(j as int)).filter(pred),
            {
                proof {
                    let base = concat_all(vals.take(i as int));
                    assert(base + links@.take(j + 1) =~= (base + links@.take(j as int)).push(
                        links@[j as int],
                    ));
                    (base + links@.take(j as int)).lemma_filter_push(links@[j as int], pred);
                }
                if link_matches_exec(&request, &links[j]) {
                    all.push(links[j].clone());
                }
            }
            proof {
                assert(links@.take(m as int) =~= links@);
                assert(vals.take(i + 1).drop_last() =~= vals.take(i as int));
            }
        }
        assert(vals.take(n as int) =~= vals);
        let m = all.len();
        let mut keys: Vec<TupleKey> = Vec::new();
        for i in 0..m
            invariant
                m == all@.len(),
                keys@.len() == i,
                forall|j: int| 0 <= j < i ==> (#[trigger] keys@[j]).parts_view()
                    == link_entity_parts(all@[j]),
        {
            keys.push(link_entity_key(&all[i]));
        }
        let ghost key_view = keys@;
        let order = sorted_order(keys);
        let mut found: Vec<EntityLink> = Vec::new();
        for i in 0..m
            invariant
                m == all@.len(),
                is_permutation(order@, m as nat),
                found@.len() == i,
                forall|j: int| 0 <= j < i ==> found@[j] == all@[order@[j] as int],
        {
            found.push(all[order[i]].clone());
        }
        proof {
            lemma_selection(found@, all@, key_view, order@, link_entity_order(), m as nat);
        }
        Ok(found)
    }
}

/// Identity of the FoundationDB provider.
pub const FDB_PROVIDER_ID: &'static str = "greentic.sorla.provider.foundationdb";

/// Version of the FoundationDB provider.
pub const FDB_PROVIDER_VERSION: &'static str = "0.1.8";

/// Whether the real FoundationDB backend is wired into this build. The
/// cluster transactions run outside the library, so it always is.
pub fn fdb_real_backend_available() -> (r: bool)
    ensures
        r,
{
    true
}

/// The capabilities the FoundationDB provider advertises, in order.
pub open spec fn fdb_capabilities() -> Seq<ProviderCapability> {
    seq![
        ProviderCapability::EventAppend,
        ProviderCapability::EventStreamRead,
        ProviderCapability::CanonicalState,
        ProviderCapability::CanonicalWrite,
        ProviderCapability::ProjectionGet,
        ProviderCapability::ProjectionPut,
        ProviderCapability::ProjectionRebuild,
        ProviderCapability::ProjectionCheckpoint,
        ProviderCapability::EntityRead,
        ProviderCapability::EntitySearch,
        ProviderCapability::RelationshipRead,
        ProviderCapability::RelationshipQuery,
        ProviderCapability::PathFind,
        ProviderCapability::EntityLink,
        ProviderCapability::HealthCheck,
        ProviderCapability::ConfigValidate,
        ProviderCapability::PackMetadataEmit,
        ProviderCapability::MetricAggregateCount,
        ProviderCapability::MetricAggregateSum,
        ProviderCapability::MetricAggregateAvg,
        ProviderCapability::MetricAggregateMin,
        ProviderCapability::MetricAggregateMax,
        ProviderCapability::MetricAggregateDistinctCount,
        ProviderCapability::MetricDimensionGroupBy,
        ProviderCapability::MetricTimeBucketHour,
        ProviderCapability::MetricTimeBucketDay,
        ProviderCapability::MetricTimeBucketWeek,
        ProviderCapability::MetricTimeBucketMonth,
        ProviderCapability::MetricTimeBucketQuarter,
        ProviderCapability::MetricTimeBucketYear,
    ]
}

/// The ontology section of the FoundationDB provider's metadata.
pub open spec fn is_fdb_ontology(o: ProviderOntologyCapabilities) -> bool {
    &&& o.schema@ == "greentic.sorla.provider.ontology-capabilities.v1"@
    &&& o.compatibility.supported_ontology_schema@ == "greentic.sorla.ontology.graph.v1"@
    &&& o.compatibility.supported_ontology_schema_range@ == ">=1.0.0, <2.0.0"@
    &&& o.compatibility.supported_retrieval_binding_schema is None
    &&& o.compatibility.supported_external_mapping_schema is None
    &&& o.supports_entity_read
    &&& o.supports_entity_search
    &&& o.supports_relationship_query
    &&& o.supports_path_find
    &&& o.supports_entity_linking
    &&& !o.supports_ontology_scoped_evidence
    &&& o.supported_concept_types@.map_values(|s: String| s@) == seq!["*"@]
    &&& o.supported_relationship_types@.map_values(|s: String| s@) == seq!["*"@]
    &&& o.max_traversal_depth == Some(8u8)
    &&& !o.supports_policy_context
    &&& o.index_capabilities == Some(ProviderIndexCapabilities { exact: false, composite: false })
    &&& o.search_capabilities == Some(
        ProviderSearchCapabilities {
            text_projection: ProjectionSupport::Unavailable,
            vector_projection: ProjectionSupport::Unavailable,
        },
    )
}

/// The metadata of the FoundationDB provider.
pub open spec fn is_fdb_metadata(m: ProviderMetadata) -> bool {
    &&& m.provider_id@ == FDB_PROVIDER_ID@
    &&& m.display_name@ == "FoundationDB"@
    &&& m.provider_kind@ == "event-store"@
    &&& m.version@ == FDB_PROVIDER_VERSION@
    &&& m.status == ProviderStatus::Experimental
    &&& !m.is_mock
    &&& m.capabilities@ == fdb_capabilities()
    &&& m.compatibility.supported_provider_contract_version@ == SORLA_PROVIDER_CONTRACT_VERSION@
    &&& m.compatibility.supported_sorla_ir@ == "0.1"@
    &&& m.compatibility.supported_sorla_ir_range@ == ">=0.1, <0.2"@
    &&& m.ontology_capabilities is Some
    &&& is_fdb_ontology(m.ontology_capabilities.unwrap())
}

fn star_list() -> (v: Vec<String>)
    ensures
        v@.map_values(|s: String| s@) == seq!["*"@],
{
    let mut v: Vec<String> = Vec::new();
    v.push(owned("*"));
    assert(v@.map_values(|s: String| s@) =~= seq!["*"@]);
    v
}

fn fdb_metadata() -> (m: ProviderMetadata)
    ensures
        is_fdb_metadata(m),
{
    let mut capabilities: Vec<ProviderCapability> = Vec::new();
    capabilities.push(ProviderCapability::EventAppend);
    capabilities.push(ProviderCapability::EventStreamRead);
    capabilities.push(ProviderCapability::CanonicalState);
    capabilities.push(ProviderCapability::CanonicalWrite);
    capabilities.push(ProviderCapability::ProjectionGet);
    capabilities.push(ProviderCapability::ProjectionPut);
    capabilities.push(ProviderCapability::ProjectionRebuild);
    capabilities.push(ProviderCapability::ProjectionCheckpoint);
    capabilities.push(ProviderCapability::EntityRead);
    capabilities.push(ProviderCapability::EntitySearch);
    capabilities.push(ProviderCapability::RelationshipRead);
    capabilities.push(ProviderCapability::RelationshipQuery);
    capabilities.push(ProviderCapability::PathFind);
    capabilities.push(ProviderCapability::EntityLink);
    capabilities.push(ProviderCapability::HealthCheck);
    capabilities.push(ProviderCapability::ConfigValidate);
    capabilities.push(ProviderCapability::PackMetadataEmit);
    capabilities.push(ProviderCapability::MetricAggregateCount);
    capabilities.push(ProviderCapability::MetricAggregateSum);
    capabilities.push(ProviderCapability::MetricAggregateAvg);
    capabilities.push(ProviderCapability::MetricAggregateMin);
    capabilities.push(ProviderCapability::MetricAggregateMax);
    capabilities.push(ProviderCapability::MetricAggregateDistinctCount);
    capabilities.push(ProviderCapability::MetricDimensionGroupBy);
    capabilities.push(ProviderCapability::MetricTimeBucketHour);
    capabilities.push(ProviderCapability::MetricTimeBucketDay);
    capabilities.push(ProviderCapability::MetricTimeBucketWeek);
    capabilities.push(ProviderCapability::MetricTimeBucketMonth);
    capabilities.push(ProviderCapability::MetricTimeBucketQuarter);
    capabilities.push(ProviderCapability::MetricTimeBucketYear);
    assert(capabilities@ =~= fdb_capabilities());
    ProviderMetadata {
        provider_id: owned(FDB_PROVIDER_ID),
        display_name: owned("FoundationDB"),
        provider_kind: owned("event-store"),
        version: owned(FDB_PROVIDER_VERSION),
        status: ProviderStatus::Experimental,
        is_mock: false,
        capabilities,
        compatibility: ContractCompatibility::new(SORLA_PROVIDER_CONTRACT_VERSION, "0.1", ">=0.1, <0.2"),
        ontology_capabilities: Some(
            ProviderOntologyCapabilities {
                schema: owned("greentic.sorla.provider.ontology-capabilities.v1"),
                compatibility: OntologyContractCompatibility {
                    supported_ontology_schema: owned("greentic.sorla.ontology.graph.v1"),
                    supported_ontology_schema_range: owned(">=1.0.0, <2.0.0"),
                    supported_retrieval_binding_schema: None,
                    supported_external_mapping_schema: None,
                },
                supports_entity_read: true,
                supports_entity_search: true,
                supports_relationship_query: true,
                supports_path_find: true,
                supports_entity_linking: true,
                supports_ontology_scoped_evidence: false,
                supported_concept_types: star_list(),
                supported_relationship_types: star_list(),
                max_traversal_depth: Some(8),
                supports_policy_context: false,
                index_capabilities: Some(ProviderIndexCapabilities { exact: false, composite: false }),
                search_capabilities: Some(
                    ProviderSearchCapabilities {
                        text_projection: ProjectionSupport::Unavailable,
                        vector_projection: ProjectionSupport::Unavailable,
                    },
                ),
            },
        ),
    }
}

impl ProviderMetadataSource for FoundationDbProvider {
    fn metadata(&self) -> (m: ProviderMetadata)
        ensures
            is_fdb_metadata(m),
    {
        fdb_metadata()
    }

    fn pack_emission(&self) -> (e: PackEmission)
        ensures
            e.provider_id@ == FDB_PROVIDER_ID@,
            e.artifact_ref@ == "file://generated/provider-foundationdb.gtpack"@,
    {
        PackEmission {
            provider_id: self.metadata().provider_id,
            artifact_ref: owned("file://generated/provider-foundationdb.gtpack"),
        }
    }
}

impl ProviderHealth for FoundationDbProvider {
    fn health(&self) -> (r: Result<HealthReport, ProviderError>)
        ensures
            r matches Ok(report) && report.state == HealthState::Ready && report.message@
                == "FoundationDB local/dev provider is ready for tenant prefix "@
                + self.config_view().tenant_prefix@,
    {
        Ok(
            HealthReport {
                state: HealthState::Ready,
                message: concat(
                    "FoundationDB local/dev provider is ready for tenant prefix ",
                    self.config.tenant_prefix.as_str(),
                ),
            },
        )
    }
}

/// Why a parsed FoundationDB configuration is refused, if it is.
pub open spec fn fdb_config_refusal(parsed: Result<FoundationDbConfig, String>) -> Option<Seq<char>> {
    match parsed {
        Err(message) => Some("invalid config JSON: "@ + message@),
        Ok(config) => if is_blank_text(config.cluster_file@) {
            Some("cluster_file must not be empty"@)
        } else if is_blank_text(config.tenant_prefix@) {
            Some("tenant_prefix must not be empty"@)
        } else {
            None
        },
    }
}

impl ConfigValidator for FoundationDbProvider {
    type Config = FoundationDbConfig;

    fn validate_config(&self, parsed: Result<FoundationDbConfig, String>) -> (r: Result<
        (),
        ProviderError,
    >)
        ensures
            match fdb_config_refusal(parsed) {
                None => r is Ok,
                Some(message) => r matches Err(ProviderError::Validation(m)) && m@ == message,
            },
    {
        match parsed {
            Err(message) => Err(
                ProviderError::Validation(concat("invalid config JSON: ", message.as_str())),
            ),
            Ok(config) => {
                if is_blank(config.cluster_file.as_str()) {
                    return Err(ProviderError::Validation(owned("cluster_file must not be empty")));
                }
                if is_blank(config.tenant_prefix.as_str()) {
                    return Err(ProviderError::Validation(owned("tenant_prefix must not be empty")));
                }
                Ok(())
            },
        }
    }
}

/// The tenant keyspace prefixes: the tenant prefix without trailing `/`,
/// followed by each documented suffix.
pub open spec fn is_keyspace_layout_for(layout: KeyspaceLayout, tenant_prefix: Seq<char>) -> bool {
    let p = trim_end_char(tenant_prefix, '/');
    &&& layout.events_prefix@ == p + "/events"@
    &&& layout.projections_prefix@ == p + "/projections"@
    &&& layout.indexes_prefix@ == p + "/indexes"@
    &&& layout.metadata_prefix@ == p + "/metadata"@
    &&& layout.checkpoints_prefix@ == p + "/checkpoints"@
    &&& layout.compatibility_prefix@ == p + "/compatibility"@
    &&& layout.ontology_model_prefix@ == p + "/ontology/model"@
    &&& layout.entities_prefix@ == p + "/entities"@
    &&& layout.relationships_prefix@ == p + "/relationships"@
    &&& layout.relationship_from_index_prefix@ == p + "/relationship-index/from"@
    &&& layout.relationship_to_index_prefix@ == p + "/relationship-index/to"@
    &&& layout.evidence_links_prefix@ == p + "/evidence-links"@
}

/// The root of a canonical SORX namespace: `/sorx/`, the encoded tenant,
/// `/`, the encoded source of record.
pub open spec fn sorx_root(ns: SorNamespace) -> Seq<char> {
    "/sorx/"@ + encode_segment(encode_utf8(ns.tenant_id@)) + "/"@ + encode_segment(
        encode_utf8(ns.sor_id@),
    )
}

/// The canonical keyspace prefixes: the SORX root followed by each documented suffix.
pub open spec fn is_canonical_layout_for(layout: CanonicalKeyspaceLayout, ns: SorNamespace) -> bool {
    let p = sorx_root(ns);
    &&& layout.current_schema_key@ == p + "/meta/current_schema"@
    &&& layout.canonical_version_key@ == p + "/meta/canonical_version"@
    &&& layout.active_views_prefix@ == p + "/meta/active_views"@
    &&& layout.entities_prefix@ == p + "/entities"@
    &&& layout.entity_versions_prefix@ == p + "/entity_versions"@
    &&& layout.events_prefix@ == p + "/events"@
    &&& layout.events_by_entity_prefix@ == p + "/events_by_entity"@
    &&& layout.events_by_time_prefix@ == p + "/events_by_time"@
    &&& layout.edges_out_prefix@ == p + "/edges/out"@
    &&& layout.edges_in_prefix@ == p + "/edges/in"@
    &&& layout.indexes_prefix@ == p + "/indexes"@
    &&& layout.composite_indexes_prefix@ == p + "/composite_indexes"@
    &&& layout.external_refs_prefix@ == p + "/external_refs"@
    &&& layout.external_refs_by_entity_prefix@ == p + "/external_refs_by_entity"@
    &&& layout.evidence_prefix@ == p + "/evidence"@
    &&& layout.evidence_by_entity_prefix@ == p + "/evidence_by_entity"@
    &&& layout.migrations_prefix@ == p + "/migrations"@
    &&& layout.deployments_prefix@ == p + "/deployments"@
}

impl FoundationDbProvider {
    /// The documented prefixes of the tenant keyspace.
    pub fn keyspace_layout(&self) -> (layout: KeyspaceLayout)
        ensures
            is_keyspace_layout_for(layout, self.config_view().tenant_prefix@),
    {
        let p = trim_end_matching(self.config.tenant_prefix.as_str(), '/');
        let p = p.as_str();
        KeyspaceLayout {
            events_prefix: concat(p, "/events"),
            projections_prefix: concat(p, "/projections"),
            indexes_prefix: concat(p, "/indexes"),
            metadata_prefix: concat(p, "/metadata"),
            checkpoints_prefix: concat(p, "/checkpoints"),
            compatibility_prefix: concat(p, "/compatibility"),
            ontology_model_prefix: concat(p, "/ontology/model"),
            entities_prefix: concat(p, "/entities"),
            relationships_prefix: concat(p, "/relationships"),
            relationship_from_index_prefix: concat(p, "/relationship-index/from"),
            relationship_to_index_prefix: concat(p, "/relationship-index/to"),
            evidence_links_prefix: concat(p, "/evidence-links"),
        }
    }

    /// The documented prefixes of a canonical SORX namespace; the environment
    /// does not take part.
    pub fn canonical_keyspace_layout(namespace: &SorNamespace) -> (layout: CanonicalKeyspaceLayout)
        ensures
            is_canonical_layout_for(layout, *namespace),
    {
        let mut root = owned("/sorx/");
        push_str(&mut root, encode_key_segment(namespace.tenant_id.as_str()).as_str());
        push_str(&mut root, "/");
        push_str(&mut root, encode_key_segment(namespace.sor_id.as_str()).as_str());
        let p = root.as_str();
        CanonicalKeyspaceLayout {
            current_schema_key: concat(p, "/meta/current_schema"),
            canonical_version_key: concat(p, "/meta/canonical_version"),
            active_views_prefix: concat(p, "/meta/active_views"),
            entities_prefix: concat(p, "/entities"),
            entity_versions_prefix: concat(p, "/entity_versions"),
            events_prefix: concat(p, "/events"),
            events_by_entity_prefix: concat(p, "/events_by_entity"),
            events_by_time_prefix: concat(p, "/events_by_time"),
            edges_out_prefix: concat(p, "/edges/out"),
            edges_in_prefix: concat(p, "/edges/in"),
            indexes_prefix: concat(p, "/indexes"),
            composite_indexes_prefix: concat(p, "/composite_indexes"),
            external_refs_prefix: concat(p, "/external_refs"),
            external_refs_by_entity_prefix: concat(p, "/external_refs_by_entity"),
            evidence_prefix: concat(p, "/evidence"),
            evidence_by_entity_prefix: concat(p, "/evidence_by_entity"),
            migrations_prefix: concat(p, "/migrations"),
            deployments_prefix: concat(p, "/deployments"),
        }
    }
}

/// The JSON schema of the FoundationDB provider's configuration.
pub const FDB_CONFIG_SCHEMA_JSON: &'static str = "{\"type\":\"object\",\"required\":[\"cluster_file\",\"tenant_prefix\"],\"properties\":{\"cluster_file\":{\"type\":\"string\"},\"tenant_prefix\":{\"type\":\"string\"}},\"additionalProperties\":false}";

/// `manifest` is the pack manifest of the FoundationDB provider.
pub open spec fn is_fdb_pack_manifest(manifest: ProviderPackManifest) -> bool {
        exists|m: ProviderMetadata,
            artifacts: Seq<ArtifactReference>,
            runtimes: Seq<RuntimeComponentRef>,
            schema: ConfigSchemaRef|
            #![trigger manifest.built_from(m, artifacts, runtimes, schema)]
            {
                &&& manifest.built_from(m, artifacts, runtimes, schema)
                &&& is_fdb_metadata(m)
                &&& artifacts.len() == 1
                &&& artifacts[0].kind@ == "gtpack-json"@
                &&& artifacts[0].uri@ == "./"@ + package_dir_text(FDB_PROVIDER_ID@) + ".gtpack.json"@
                &&& runtimes.len() == 1
                &&& runtimes[0].component_id@ == "foundationdb-runtime"@
                &&& runtimes[0].kind@ == "service"@
                &&& runtimes[0].entrypoint@ == "provider-foundationdb"@
                &&& runtimes[0].artifact_uri@ == oci_reference_text(FDB_PROVIDER_ID@, FDB_PROVIDER_VERSION@)
                &&& schema.format@ == "json-schema"@
                &&& schema.path@ == "schemas/provider-config.schema.json"@
                &&& schema.schema_json@ == FDB_CONFIG_SCHEMA_JSON@
            }
}

/// The pack manifest of the FoundationDB provider.
pub fn pack_manifest() -> (manifest: ProviderPackManifest)
    ensures
        is_fdb_pack_manifest(manifest),
{
    let metadata = fdb_metadata();
    let mut artifacts: Vec<ArtifactReference> = Vec::new();
    artifacts.push(
        ArtifactReference {
            kind: owned("gtpack-json"),
            uri: provider_artifact_file_uri(FDB_PROVIDER_ID),
        },
    );
    let mut runtimes: Vec<RuntimeComponentRef> = Vec::new();
    runtimes.push(
        provider_runtime_component(
            FDB_PROVIDER_ID,
            FDB_PROVIDER_VERSION,
            "foundationdb-runtime",
            "provider-foundationdb",
        ),
    );
    let schema = ConfigSchemaRef {
        format: owned("json-schema"),
        path: owned("schemas/provider-config.schema.json"),
        schema_json: owned(FDB_CONFIG_SCHEMA_JSON),
    };
    let ghost a = artifacts@;
    let ghost r = runtimes@;
    let ghost s = schema;
    let manifest = ProviderPackManifest::from_metadata(&metadata, artifacts, runtimes, schema);
    assert(manifest.built_from(metadata, a, r, s));
    manifest
}

/// The catalog entry of the FoundationDB provider, made from its manifest.
pub open spec fn is_fdb_catalog_entry(entry: ProviderCatalogEntry, manifest: ProviderPackManifest) -> bool {
    &&& entry.provider_id == manifest.provider_id
    &&& entry.provider_version == manifest.provider_version
    &&& entry.provider_kind == manifest.provider_kind
    &&& entry.capabilities@ == manifest.capabilities@
    &&& entry.tags@.map_values(|t: String| t@) == seq!["event-store"@, "real"@]
    &&& entry.is_mock == manifest.is_mock
    &&& entry.status == manifest.status
    &&& entry.supported_provider_contract_version == manifest.supported_provider_contract_version
    &&& entry.supported_sorla_ir == manifest.supported_sorla_ir
    &&& entry.supported_sorla_ir_range == manifest.supported_sorla_ir_range
    &&& entry.config_schema_path == manifest.config_schema.path
    &&& entry.artifact_uri == (if manifest.artifact_references@.len() > 0 {
        Some(manifest.artifact_references@[0].uri)
    } else {
        None
    })
    &&& entry.oci_reference == manifest.oci_reference
    &&& match (entry.ontology, manifest.ontology_capabilities) {
        (None, None) => true,
        (Some(e), Some(o)) => {
            &&& e.capabilities@ == seq![
                ProviderCapability::EntityRead,
                ProviderCapability::EntitySearch,
                ProviderCapability::RelationshipQuery,
                ProviderCapability::PathFind,
                ProviderCapability::EntityLink,
            ]
            &&& e.max_traversal_depth == o.max_traversal_depth
            &&& e.supports_generic_entity_refs
            &&& e.supported_ontology_schema == o.compatibility.supported_ontology_schema
            &&& e.supported_ontology_schema_range == o.compatibility.supported_ontology_schema_range
            &&& e.supported_retrieval_binding_schema == o.compatibility.supported_retrieval_binding_schema
            &&& e.supported_external_mapping_schema == o.compatibility.supported_external_mapping_schema
        },
        _ => false,
    }
}

/// The catalog entry of the FoundationDB provider.
pub fn catalog_entry() -> (entry: ProviderCatalogEntry)
    ensures
        exists|manifest: ProviderPackManifest|
            #[trigger] is_fdb_pack_manifest(manifest) && is_fdb_catalog_entry(entry, manifest),
{
    let manifest = pack_manifest();
    let ghost mv = manifest;
    let artifact_uri = if manifest.artifact_references.len() > 0 {
        Some(manifest.artifact_references[0].uri.clone())
    } else {
        None
    };
    let ontology = match &manifest.ontology_capabilities {
        Some(o) => {
            let mut capabilities: Vec<ProviderCapability> = Vec::new();
            capabilities.push(ProviderCapability::EntityRead);
            capabilities.push(ProviderCapability::EntitySearch);
            capabilities.push(ProviderCapability::RelationshipQuery);
            capabilities.push(ProviderCapability::PathFind);
            capabilities.push(ProviderCapability::EntityLink);
            assert(capabilities@ =~= seq![
                ProviderCapability::EntityRead,
                ProviderCapability::EntitySearch,
                ProviderCapability::RelationshipQuery,
                ProviderCapability::PathFind,
                ProviderCapability::EntityLink,
            ]);
            Some(
                ProviderCatalogOntology {
                    capabilities,
                    max_traversal_depth: o.max_traversal_depth,
                    supports_generic_entity_refs: true,
                    supported_ontology_schema: o.compatibility.supported_ontology_schema.clone(),
                    supported_ontology_schema_range: o.compatibility.supported_ontology_schema_range.clone(),
                    supported_retrieval_binding_schema: o.compatibility.supported_retrieval_binding_schema.clone(),
                    supported_external_mapping_schema: o.compatibility.supported_external_mapping_schema.clone(),
                },
            )
        },
        None => None,
    };
    let mut tags: Vec<String> = Vec::new();
    tags.push(owned("event-store"));
    tags.push(owned("real"));
    let capabilities = manifest.capabilities.clone();
    let entry = ProviderCatalogEntry {
        provider_id: manifest.provider_id,
        provider_version: manifest.provider_version,
        provider_kind: manifest.provider_kind,
        capabilities,
        tags,
        is_mock: manifest.is_mock,
        status: manifest.status,
        supported_provider_contract_version: manifest.supported_provider_contract_version,
        supported_sorla_ir: manifest.supported_sorla_ir,
        supported_sorla_ir_range: manifest.supported_sorla_ir_range,
        config_schema_path: manifest.config_schema.path,
        artifact_uri,
        oci_reference: manifest.oci_reference,
        ontology,
    };
    assert(entry.tags@.map_values(|t: String| t@) =~= seq!["event-store"@, "real"@]);
    assert(entry.capabilities@ =~= mv.capabilities@);
    assert(is_fdb_catalog_entry(entry, mv));
    entry
}

/// A canonical record belongs to the metric source of a namespace and
/// entity type.
pub open spec fn in_metric_source(r: CanonicalEntityRecord, namespace: SorNamespace, entity_type: Seq<char>) -> bool {
    same_namespace(r.namespace, namespace) && r.entity_type@ == entity_type
}

/// The key that orders the canonical rows of a metric source:
/// `canonical:{production key}:{type}:{id}:{revision, 20 digits}`.
pub open spec fn metric_canonical_key_text(namespace: SorNamespace, r: CanonicalEntityRecord) -> Seq<char> {
    "canonical:"@ + namespace.production_key_text() + ":"@ + r.entity_type@ + ":"@ + r.entity_id@ + ":"@
        + padded_decimal(r.revision as nat, 20)
}

/// The key that orders the event rows of a metric source:
/// `event:{stream id}:{revision, 20 digits}`.
pub open spec fn metric_event_key_text(stream_id: Seq<char>, revision: u64) -> Seq<char> {
    "event:"@ + stream_id + ":"@ + padded_decimal(revision as nat, 20)
}

/// The row key of an event of a metric source.
pub fn metric_event_key(stream_id: &str, revision: u64) -> (k: String)
    ensures
        k@ == metric_event_key_text(stream_id@, revision),
{
    let mut k = owned("event:");
    push_str(&mut k, stream_id);
    push_str(&mut k, ":");
    push_str(&mut k, padded_decimal_string(revision, 20).as_str());
    proof {
        reveal_strlit("event:");
        reveal_strlit(":");
    }
    k
}

fn metric_canonical_key(namespace: &SorNamespace, r: &CanonicalEntityRecord) -> (k: String)
    ensures
        k@ == metric_canonical_key_text(*namespace, *r),
{
    let mut k = owned("canonical:");
    push_str(&mut k, namespace.production_key().as_str());
    push_str(&mut k, ":");
    push_str(&mut k, r.entity_type.as_str());
    push_str(&mut k, ":");
    push_str(&mut k, r.entity_id.as_str());
    push_str(&mut k, ":");
    push_str(&mut k, padded_decimal_string(r.revision, 20).as_str());
    proof {
        reveal_strlit("canonical:");
        reveal_strlit(":");
    }
    k
}

impl FoundationDbProvider {
    /// The canonical entities of a namespace and entity type, each with its
    /// row key, in row-key order.
    pub fn metric_source_entities(&self, namespace: &SorNamespace, entity_type: &str) -> (out: Vec<
        (String, CanonicalEntityRecord),
    >)
        ensures
            ({
                let matching = self.canonical_store().val_seq().filter(
                    |r: CanonicalEntityRecord| in_metric_source(r, *namespace, entity_type@),
                );
                &&& out@.len() == matching.len()
                &&& exists|order: Seq<usize>|
                    #[trigger] is_permutation(order, matching.len()) && forall|i: int|
                        0 <= i < matching.len() ==> (#[trigger] out@[i]).1 == matching[order[i] as int]
                            && out@[i].0@ == metric_canonical_key_text(*namespace, matching[order[i] as int])
                &&& forall|i: int, j: int|
                    0 <= i < j < out@.len() ==> !chars_lt((#[trigger] out@[j]).0@, (#[trigger] out@[i]).0@)
            }),
    {
        let ghost pred = |r: CanonicalEntityRecord| in_metric_source(r, *namespace, entity_type@);
        let ghost vals = self.canonical_store().val_seq();
        let n = self.canonical_entities.len();
        let mut picked: Vec<CanonicalEntityRecord> = Vec::new();
        let mut keys: Vec<StrKey> = Vec::new();
        for i in 0..n
            invariant
                n == vals.len(),
                vals == self.canonical_store().val_seq(),
                vals.len() == self.canonical_store().key_seq().len(),
                pred == (|r: CanonicalEntityRecord| in_metric_source(r, *namespace, entity_type@)),
                picked@ == vals.take(i as int).filter(pred),
                keys@.len() == picked@.len(),
                forall|j: int| 0 <= j < keys@.len() ==> (#[trigger] keys@[j]).text@ == metric_canonical_key_text(*namespace, picked@[j]),
        {
            let r = self.canonical_entities.val_at(i);
            proof {
                assert(vals.take(i + 1) =~= vals.take(i as int).push(vals[i as int]));
                vals.take(i as int).lemma_filter_push(vals[i as int], pred);
            }
            if same_namespace_exec(&r.namespace, namespace) && same_text(r.entity_type.as_str(), entity_type) {
                keys.push(StrKey { text: metric_canonical_key(namespace, r) });
                picked.push(r.clone());
            }
        }
        assert(vals.take(n as int) =~= vals);
        let ghost ks = keys@;
        let ghost ps = picked@;
        let order = sorted_order(keys);
        let m = picked.len();
        let mut out: Vec<(String, CanonicalEntityRecord)> = Vec::new();
        for t in 0..m
            invariant
                m == ps.len(),
                ps == picked@,
                ks.len() == m,
                is_permutation(order@, m as nat),
                crate::sort::orders_keys(ks, order@),
                forall|j: int| 0 <= j < m ==> (#[trigger] ks[j]).text@ == metric_canonical_key_text(*namespace, ps[j]),
                out@.len() == t,
                forall|j: int| 0 <= j < t ==> (#[trigger] out@[j]).1 == ps[order@[j] as int]
                    && out@[j].0@ == metric_canonical_key_text(*namespace, ps[order@[j] as int]),
        {
            let k = order[t];
            let r = picked[k].clone();
            out.push((metric_canonical_key(namespace, &r), r));
        }
        proof {
            assert forall|i: int, j: int| 0 <= i < j < out@.len() implies !chars_lt((#[trigger] out@[j]).0@, (#[trigger] out@[i]).0@) by {
                assert(order@[i] < m && order@[j] < m);
                assert(!ks[order@[j] as int].key_lt(ks[order@[i] as int]));
            }
            assert(is_permutation(order@, ps.len()));
        }
        out
    }
}

} // verus!
