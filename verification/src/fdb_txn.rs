//! The decisions of a canonical write against a real FoundationDB cluster.
//!
//! The transaction is driven from outside the library: it starts with
//! [`canonical_write_begin`], performs the read that each step asks for and
//! hands the result to the next step, and commits the writes of the final
//! plan (encoding each planned value) in one transaction.
use vstd::prelude::*;

use crate::fdb_keys::{entity_key, entity_key_text};
use crate::fdb_provider::same_namespace;
use crate::keyspace::{keyspace_root, sequence_width, FdbKeyspace};
use crate::sort::{is_permutation, orders_keys, sorted_order, SortKey};
use crate::text::{owned, same_text, utf8_bytes};
use crate::text::padded_decimal;
use crate::types::{CanonicalWriteRequest, CanonicalWriteResult, EntityLink, EntityRef, ProviderError, RelationshipRef, SorEventRecord, SorNamespace};
use vstd::utf8::encode_utf8;

verus! {

/// The eight big-endian bytes of `v`.
pub open spec fn be_bytes(v: u64) -> Seq<u8> {
    seq![
        (v >> 56) as u8,
        (v >> 48) as u8,
        (v >> 40) as u8,
        (v >> 32) as u8,
        (v >> 24) as u8,
        (v >> 16) as u8,
        (v >> 8) as u8,
        v as u8,
    ]
}

/// The value of eight big-endian bytes; 0 for any other length.
pub open spec fn be_value(b: Seq<u8>) -> u64 {
    if b.len() == 8 {
        ((b[0] as u64) << 56) | ((b[1] as u64) << 48) | ((b[2] as u64) << 40) | ((b[3] as u64)
            << 32) | ((b[4] as u64) << 24) | ((b[5] as u64) << 16) | ((b[6] as u64) << 8) | (
        b[7] as u64)
    } else {
        0
    }
}

/// Encodes a stream head big-endian, so byte order matches numeric order.
pub fn encode_u64(value: u64) -> (out: Vec<u8>)
    ensures
        out@ == be_bytes(value),
{
    let mut out: Vec<u8> = Vec::new();
    out.push((value >> 56) as u8);
    out.push((value >> 48) as u8);
    out.push((value >> 40) as u8);
    out.push((value >> 32) as u8);
    out.push((value >> 24) as u8);
    out.push((value >> 16) as u8);
    out.push((value >> 8) as u8);
    out.push(value as u8);
    assert(out@ =~= be_bytes(value));
    out
}

/// Decodes a big-endian stream head, treating any slice that is not eight
/// bytes long as 0.
pub fn decode_u64(bytes: &[u8]) -> (v: u64)
    ensures
        v == be_value(bytes@),
{
    if bytes.len() != 8 {
        return 0;
    }
    ((bytes[0] as u64) << 56) | ((bytes[1] as u64) << 48) | ((bytes[2] as u64) << 40) | ((
    bytes[3] as u64) << 32) | ((bytes[4] as u64) << 24) | ((bytes[5] as u64) << 16) | ((
    bytes[6] as u64) << 8) | (bytes[7] as u64)
}

/// Decoding an encoded head gives the head back.
pub proof fn lemma_decode_encode_u64(v: u64)
    ensures
        be_value(be_bytes(v)) == v,
{
    let b = be_bytes(v);
    assert(((((v >> 56) as u8) as u64) << 56) | ((((v >> 48) as u8) as u64) << 48) | ((((v
        >> 40) as u8) as u64) << 40) | ((((v >> 32) as u8) as u64) << 32) | ((((v >> 24) as u8)
        as u64) << 24) | ((((v >> 16) as u8) as u64) << 16) | ((((v >> 8) as u8) as u64) << 8)
        | ((v as u8) as u64) == v) by (bit_vector);
}

/// Bytes compared from the most significant one: the order of the first pair
/// that differs.
spec fn byte_cascade_lt(a: u64, b: u64) -> bool {
    if (a >> 56) as u8 != (b >> 56) as u8 {
        ((a >> 56) as u8) < ((b >> 56) as u8)
    } else if (a >> 48) as u8 != (b >> 48) as u8 {
        ((a >> 48) as u8) < ((b >> 48) as u8)
    } else if (a >> 40) as u8 != (b >> 40) as u8 {
        ((a >> 40) as u8) < ((b >> 40) as u8)
    } else if (a >> 32) as u8 != (b >> 32) as u8 {
        ((a >> 32) as u8) < ((b >> 32) as u8)
    } else if (a >> 24) as u8 != (b >> 24) as u8 {
        ((a >> 24) as u8) < ((b >> 24) as u8)
    } else if (a >> 16) as u8 != (b >> 16) as u8 {
        ((a >> 16) as u8) < ((b >> 16) as u8)
    } else if (a >> 8) as u8 != (b >> 8) as u8 {
        ((a >> 8) as u8) < ((b >> 8) as u8)
    } else {
        (a as u8) < (b as u8)
    }
}

/// Encoded heads compare in byte order exactly as the numbers do.
pub proof fn lemma_encode_u64_order(a: u64, b: u64)
    ensures
        crate::text::bytes_lt(be_bytes(a), be_bytes(b)) == (a < b),
{
    assert(byte_cascade_lt(a, b) == (a < b)) by (bit_vector);
    let x = be_bytes(a);
    let y = be_bytes(b);
    assert(x.skip(0) =~= x);
    assert(y.skip(0) =~= y);
    assert forall|i: int| 0 <= i < 8 implies #[trigger] x.skip(i).drop_first() =~= x.skip(i + 1) && y.skip(i).drop_first() =~= y.skip(i + 1) by {}
    reveal_with_fuel(crate::text::bytes_lt, 9);
    assert(x.skip(8).len() == 0 && y.skip(8).len() == 0);
    assert(x.skip(7)[0] == x[7] && y.skip(7)[0] == y[7]);
    assert(x.skip(6)[0] == x[6] && y.skip(6)[0] == y[6]);
    assert(x.skip(5)[0] == x[5] && y.skip(5)[0] == y[5]);
    assert(x.skip(4)[0] == x[4] && y.skip(4)[0] == y[4]);
    assert(x.skip(3)[0] == x[3] && y.skip(3)[0] == y[3]);
    assert(x.skip(2)[0] == x[2] && y.skip(2)[0] == y[2]);
    assert(x.skip(1)[0] == x[1] && y.skip(1)[0] == y[1]);
}

/// The stable token of an entity inside edge and link keys: namespace, type,
/// id and version joined by unit separators.
pub fn entity_token(entity: &EntityRef) -> (token: String)
    ensures
        token@ == entity_key_text(*entity),
{
    entity_key(entity)
}

/// Why the cluster refused a canonical write inside its transaction.
#[derive(Debug)]
pub enum FdbWriteRefusal {
    DuplicateIdempotency(String),
    SequenceConflict { expected: u64, actual: u64 },
}

/// What a planned write stores.
#[derive(Debug)]
pub enum FdbWriteValue {
    /// The bytes of the event id (idempotency marker).
    EventId(Vec<u8>),
    /// The new stream head, big-endian.
    Head(Vec<u8>),
    /// The encoded event.
    Event,
    /// The encoded canonical entity.
    Entity,
    /// The encoded relationship at this position of the request.
    Relationship(usize),
    /// The encoded entity link at this position of the request.
    EntityLink(usize),
}

/// One key written by a canonical write.
#[derive(Debug)]
pub struct FdbWrite {
    pub key: Vec<u8>,
    pub value: FdbWriteValue,
}

/// The next step of a canonical write transaction.
#[derive(Debug)]
pub enum FdbWriteStep {
    /// Refused before the transaction starts.
    Invalid(ProviderError),
    /// Read this idempotency key and report whether it is set.
    CheckIdempotency(Vec<u8>),
    /// Read this stream head key and report its bytes, if any.
    ReadHead(Vec<u8>),
    /// Refused inside the transaction; nothing is written.
    Refused(FdbWriteRefusal),
    /// Write these keys and commit.
    Commit(Vec<FdbWrite>),
}

/// The keyspace text of a request's namespace, as a key of bytes.
pub open spec fn ns_key(req: CanonicalWriteRequest, suffix: Seq<char>) -> Seq<u8> {
    encode_utf8(
        keyspace_root(req.event.namespace.tenant_id@, req.event.namespace.sor_id@) + suffix,
    )
}

/// The suffix of the key of an outgoing edge.
pub open spec fn edge_out_suffix(r: RelationshipRef) -> Seq<char> {
    "/edges/out/"@ + r.relationship_type@ + seq!['\u{1f}'] + entity_key_text(r.from) + seq!['\u{1f}']
        + entity_key_text(r.to)
}

/// The suffix of the key of an incoming edge.
pub open spec fn edge_in_suffix(r: RelationshipRef) -> Seq<char> {
    "/edges/in/"@ + r.relationship_type@ + seq!['\u{1f}'] + entity_key_text(r.to) + seq!['\u{1f}']
        + entity_key_text(r.from)
}

/// The suffix of the key of an entity link.
pub open spec fn link_suffix(l: EntityLink) -> Seq<char> {
    "/links/"@ + entity_key_text(l.entity) + seq!['\u{1f}'] + l.source_ref@ + seq!['\u{1f}'] + l.match_kind@
}

/// The key of the stream head a canonical write reads and moves.
pub open spec fn head_key(req: CanonicalWriteRequest) -> Seq<u8> {
    ns_key(req, FdbKeyspace::stream_prefix(req.event.stream_id@) + "_head"@)
}

/// The key that records an idempotency key `k` of the request's namespace.
pub open spec fn idem_key(req: CanonicalWriteRequest, k: Seq<char>) -> Seq<u8> {
    ns_key(req, "/idempotency/"@ + k)
}

/// The event of `req` targets its canonical entity, in the same namespace.
pub open spec fn write_targets_entity(req: CanonicalWriteRequest) -> bool {
    &&& same_namespace(req.event.namespace, req.entity.namespace)
    &&& req.event.entity_ref.entity_type@ == req.entity.entity_type@
    &&& req.event.entity_ref.entity_id@ == req.entity.entity_id@
}

/// The step a canonical write starts with: the checks that need no read,
/// then the first read.
pub open spec fn begin_step(req: CanonicalWriteRequest, step: FdbWriteStep) -> bool {
    &&& !same_namespace(req.event.namespace, req.entity.namespace) ==> (step matches FdbWriteStep::Invalid(ProviderError::Validation(m)) && m@ == "event and entity namespaces must match"@)
    &&& same_namespace(req.event.namespace, req.entity.namespace) && !write_targets_entity(req) ==> (step matches FdbWriteStep::Invalid(ProviderError::Validation(m)) && m@ == "event entity_ref must target the canonical entity"@)
    &&& write_targets_entity(req) ==> match req.event.idempotency_key {
        Some(k) => step matches FdbWriteStep::CheckIdempotency(key) && key@ == idem_key(req, k@),
        None => step matches FdbWriteStep::ReadHead(key) && key@ == head_key(req),
    }
}

/// Starts a canonical write: the checks that need no read, then the first read.
pub fn canonical_write_begin(req: &CanonicalWriteRequest) -> (step: FdbWriteStep)
    ensures
        begin_step(*req, step),
{
    if !crate::fdb_provider::same_namespace_exec(&req.event.namespace, &req.entity.namespace) {
        return FdbWriteStep::Invalid(ProviderError::Validation(owned("event and entity namespaces must match")));
    }
    if !same_text(req.event.entity_ref.entity_type.as_str(), req.entity.entity_type.as_str())
        || !same_text(req.event.entity_ref.entity_id.as_str(), req.entity.entity_id.as_str()) {
        return FdbWriteStep::Invalid(
            ProviderError::Validation(owned("event entity_ref must target the canonical entity")),
        );
    }
    let ks = FdbKeyspace::new(&req.event.namespace);
    match &req.event.idempotency_key {
        Some(idem) => FdbWriteStep::CheckIdempotency(ks.idempotency_key(idem.as_str())),
        None => FdbWriteStep::ReadHead(ks.canonical_event_head_key(req.event.stream_id.as_str())),
    }
}

/// The step after the idempotency read: refuse a replay, else read the
/// stream head.
pub open spec fn after_idempotency_step(req: CanonicalWriteRequest, already_applied: bool, step: FdbWriteStep) -> bool {
    &&& already_applied ==> (step matches FdbWriteStep::Refused(FdbWriteRefusal::DuplicateIdempotency(k)) && k@ == req.event.idempotency_key.unwrap()@)
    &&& !already_applied ==> (step matches FdbWriteStep::ReadHead(key) && key@ == head_key(req))
}

/// After the idempotency read: refuse a replay, else read the stream head.
pub fn canonical_write_after_idempotency(req: &CanonicalWriteRequest, already_applied: bool) -> (step: FdbWriteStep)
    requires
        req.event.idempotency_key is Some,
    ensures
        after_idempotency_step(*req, already_applied, step),
{
    if already_applied {
        let idem = match &req.event.idempotency_key {
            Some(k) => k.clone(),
            None => String::new(),
        };
        return FdbWriteStep::Refused(FdbWriteRefusal::DuplicateIdempotency(idem));
    }
    let ks = FdbKeyspace::new(&req.event.namespace);
    FdbWriteStep::ReadHead(ks.canonical_event_head_key(req.event.stream_id.as_str()))
}

/// The keys a canonical write stores, in the order it stores them.
pub open spec fn planned_keys(req: CanonicalWriteRequest, plan: Seq<FdbWrite>) -> bool {
    let ev = req.event;
    let extra: int = if ev.idempotency_key is Some {
        1
    } else {
        0
    };
    let nr = req.relationships@.len() as int;
    let nl = req.entity_links@.len() as int;
    &&& plan.len() == extra + 3 + 2 * nr + nl
    &&& ev.idempotency_key is Some ==> (plan[0].key@ == ns_key(req, "/idempotency/"@ + ev.idempotency_key.unwrap()@)
        && (plan[0].value matches FdbWriteValue::EventId(b) && b@ == encode_utf8(ev.event_id@)))
    &&& plan[extra].key@ == ns_key(req, FdbKeyspace::stream_prefix(ev.stream_id@) + "_head"@)
    &&& plan[extra].value matches FdbWriteValue::Head(b) && b@ == be_bytes(ev.sequence)
    &&& plan[extra + 1].key@ == ns_key(
        req,
        FdbKeyspace::stream_prefix(ev.stream_id@) + padded_decimal(ev.sequence as nat, sequence_width()),
    )
    &&& plan[extra + 1].value matches FdbWriteValue::Event
    &&& plan[extra + 2].key@ == ns_key(
        req,
        "/entities/"@ + req.entity.entity_type@ + seq!['\u{1f}'] + req.entity.entity_id@,
    )
    &&& plan[extra + 2].value matches FdbWriteValue::Entity
    &&& forall|i: int| 0 <= i < nr ==> plan[extra + 3 + 2 * i].value == FdbWriteValue::Relationship(i as usize)
        && plan[extra + 4 + 2 * i].value == FdbWriteValue::Relationship(i as usize)
        && plan[extra + 3 + 2 * i].key@ == ns_key(req, edge_out_suffix((#[trigger] req.relationships@[i]).relationship))
        && plan[extra + 4 + 2 * i].key@ == ns_key(req, edge_in_suffix(req.relationships@[i].relationship))
    &&& forall|i: int| 0 <= i < nl ==> plan[extra + 3 + 2 * nr + i].value == FdbWriteValue::EntityLink(i as usize)
        && plan[extra + 3 + 2 * nr + i].key@ == ns_key(req, link_suffix(#[trigger] req.entity_links@[i]))
}

/// The value of a stream head as read: its big-endian bytes, 0 when unset.
pub open spec fn head_value(head: Option<Seq<u8>>) -> u64 {
    match head {
        Some(b) => be_value(b),
        None => 0,
    }
}

/// The bytes of a head as read.
pub open spec fn head_bytes(head: Option<Vec<u8>>) -> Option<Seq<u8>> {
    match head {
        Some(b) => Some(b@),
        None => None,
    }
}

/// The step after the head read: refuse a write that does not follow the
/// head, else plan every write of the transaction.
pub open spec fn after_head_step(req: CanonicalWriteRequest, head: Option<Seq<u8>>, step: FdbWriteStep) -> bool {
    let current = head_value(head);
    if current == u64::MAX || req.event.sequence != current + 1 {
        step matches FdbWriteStep::Refused(FdbWriteRefusal::SequenceConflict { expected, actual })
            && expected == (if current == u64::MAX { u64::MAX } else { (current + 1) as u64 })
            && actual == req.event.sequence
    } else {
        step matches FdbWriteStep::Commit(plan) && planned_keys(req, plan@)
    }
}

/// After the head read: refuse a write that does not follow the head, else plan
/// every write of the transaction.
pub fn canonical_write_after_head(req: &CanonicalWriteRequest, head: Option<Vec<u8>>) -> (step: FdbWriteStep)
    ensures
        after_head_step(*req, head_bytes(head), step),
{
    let current = match &head {
        Some(bytes) => decode_u64(bytes.as_slice()),
        None => 0,
    };
    if current == u64::MAX || req.event.sequence != current + 1 {
        let expected = if current == u64::MAX { u64::MAX } else { current + 1 };
        return FdbWriteStep::Refused(
            FdbWriteRefusal::SequenceConflict { expected, actual: req.event.sequence },
        );
    }
    let ev = &req.event;
    let ks = FdbKeyspace::new(&ev.namespace);
    let mut plan: Vec<FdbWrite> = Vec::new();
    match &ev.idempotency_key {
        Some(idem) => {
            let id_text = ev.event_id.clone();
            plan.push(FdbWrite { key: ks.idempotency_key(idem.as_str()), value: FdbWriteValue::EventId(utf8_bytes(&id_text)) });
        },
        None => {},
    }
    plan.push(FdbWrite { key: ks.canonical_event_head_key(ev.stream_id.as_str()), value: FdbWriteValue::Head(encode_u64(ev.sequence)) });
    plan.push(FdbWrite { key: ks.canonical_event_key(ev.stream_id.as_str(), ev.sequence), value: FdbWriteValue::Event });
    plan.push(FdbWrite { key: ks.canonical_entity_key(req.entity.entity_type.as_str(), req.entity.entity_id.as_str()), value: FdbWriteValue::Entity });
    let ghost extra: int = if ev.idempotency_key is Some { 1 } else { 0 };
    let nr = req.relationships.len();
    for i in 0..nr
        invariant
            nr == req.relationships@.len(),
            extra == (if req.event.idempotency_key is Some { 1int } else { 0int }),
            plan@.len() == extra + 3 + 2 * i,
            req.event.idempotency_key is Some ==> (plan@[0].key@ == ns_key(*req, "/idempotency/"@ + req.event.idempotency_key.unwrap()@)
                && (plan@[0].value matches FdbWriteValue::EventId(b) && b@ == encode_utf8(req.event.event_id@))),
            plan@[extra].key@ == ns_key(*req, FdbKeyspace::stream_prefix(req.event.stream_id@) + "_head"@),
            plan@[extra].value matches FdbWriteValue::Head(b) && b@ == be_bytes(req.event.sequence),
            plan@[extra + 1].key@ == ns_key(
                *req,
                FdbKeyspace::stream_prefix(req.event.stream_id@) + padded_decimal(req.event.sequence as nat, sequence_width()),
            ),
            plan@[extra + 1].value matches FdbWriteValue::Event,
            plan@[extra + 2].key@ == ns_key(
                *req,
                "/entities/"@ + req.entity.entity_type@ + seq!['\u{1f}'] + req.entity.entity_id@,
            ),
            plan@[extra + 2].value matches FdbWriteValue::Entity,
            ks.root_text() == keyspace_root(req.event.namespace.tenant_id@, req.event.namespace.sor_id@),
            forall|j: int| 0 <= j < i ==> (#[trigger] plan@[extra + 3 + 2 * j]).value == FdbWriteValue::Relationship(j as usize)
                && plan@[extra + 4 + 2 * j].value == FdbWriteValue::Relationship(j as usize)
                && plan@[extra + 3 + 2 * j].key@ == ns_key(*req, edge_out_suffix(req.relationships@[j].relationship))
                && plan@[extra + 4 + 2 * j].key@ == ns_key(*req, edge_in_suffix(req.relationships@[j].relationship)),
    {
        let rel = &req.relationships[i].relationship;
        let from = entity_token(&rel.from);
        let to = entity_token(&rel.to);
        plan.push(FdbWrite { key: ks.edge_out_key(rel.relationship_type.as_str(), from.as_str(), to.as_str()), value: FdbWriteValue::Relationship(i) });
        plan.push(FdbWrite { key: ks.edge_in_key(rel.relationship_type.as_str(), to.as_str(), from.as_str()), value: FdbWriteValue::Relationship(i) });
    }
    let nl = req.entity_links.len();
    for i in 0..nl
        invariant
            nl == req.entity_links@.len(),
            nr == req.relationships@.len(),
            extra == (if req.event.idempotency_key is Some { 1int } else { 0int }),
            plan@.len() == extra + 3 + 2 * nr + i,
            req.event.idempotency_key is Some ==> (plan@[0].key@ == ns_key(*req, "/idempotency/"@ + req.event.idempotency_key.unwrap()@)
                && (plan@[0].value matches FdbWriteValue::EventId(b) && b@ == encode_utf8(req.event.event_id@))),
            plan@[extra].key@ == ns_key(*req, FdbKeyspace::stream_prefix(req.event.stream_id@) + "_head"@),
            plan@[extra].value matches FdbWriteValue::Head(b) && b@ == be_bytes(req.event.sequence),
            plan@[extra + 1].key@ == ns_key(
                *req,
                FdbKeyspace::stream_prefix(req.event.stream_id@) + padded_decimal(req.event.sequence as nat, sequence_width()),
            ),
            plan@[extra + 1].value matches FdbWriteValue::Event,
            plan@[extra + 2].key@ == ns_key(
                *req,
                "/entities/"@ + req.entity.entity_type@ + seq!['\u{1f}'] + req.entity.entity_id@,
            ),
            plan@[extra + 2].value matches FdbWriteValue::Entity,
            ks.root_text() == keyspace_root(req.event.namespace.tenant_id@, req.event.namespace.sor_id@),
            forall|j: int| 0 <= j < nr ==> (#[trigger] plan@[extra + 3 + 2 * j]).value == FdbWriteValue::Relationship(j as usize)
                && plan@[extra + 4 + 2 * j].value == FdbWriteValue::Relationship(j as usize)
                && plan@[extra + 3 + 2 * j].key@ == ns_key(*req, edge_out_suffix(req.relationships@[j].relationship))
                && plan@[extra + 4 + 2 * j].key@ == ns_key(*req, edge_in_suffix(req.relationships@[j].relationship)),
            forall|j: int| 0 <= j < i ==> (#[trigger] plan@[extra + 3 + 2 * nr + j]).value == FdbWriteValue::EntityLink(j as usize)
                && plan@[extra + 3 + 2 * nr + j].key@ == ns_key(*req, link_suffix(req.entity_links@[j])),
    {
        let link = &req.entity_links[i];
        let token = entity_token(&link.entity);
        plan.push(FdbWrite { key: ks.entity_link_key(token.as_str(), link.source_ref.as_str(), link.match_kind.as_str()), value: FdbWriteValue::EntityLink(i) });
    }
    FdbWriteStep::Commit(plan)
}

/// What a committed canonical write reports: the event and entity it stored
/// and how many relationships and entity links it wrote.
pub fn canonical_write_committed(req: &CanonicalWriteRequest) -> (r: CanonicalWriteResult)
    ensures
        r == (CanonicalWriteResult {
            event: req.event,
            entity: req.entity,
            relationships_written: req.relationships@.len() as usize,
            entity_links_written: req.entity_links@.len() as usize,
        }),
{
    CanonicalWriteResult {
        event: req.event.clone(),
        entity: req.entity.clone(),
        relationships_written: req.relationships.len(),
        entity_links_written: req.entity_links.len(),
    }
}

/// A record and its sequence number, ordered by the number.
pub struct SequencedEvent {
    pub sequence: u64,
    pub index: usize,
}

impl SortKey for SequencedEvent {
    open spec fn key_lt(self, other: Self) -> bool {
        self.sequence < other.sequence
    }

    fn key_less(&self, other: &Self) -> (r: bool) {
        self.sequence < other.sequence
    }

    proof fn lemma_key_lt_irreflexive(a: Self) {
    }

    proof fn lemma_key_lt_transitive(a: Self, b: Self, c: Self) {
    }

    proof fn lemma_key_lt_negative_transitive(a: Self, b: Self, c: Self) {
    }
}

/// The events after `from`, in sequence order, at most `limit` of them.
pub open spec fn stream_selection(out: Seq<SorEventRecord>, events: Seq<SorEventRecord>, from: u64, limit: nat) -> bool {
    let all = events.filter(|e: SorEventRecord| e.sequence > from);
    exists|order: Seq<usize>|
        #[trigger] is_permutation(order, all.len()) && (forall|i: int, j: int|
            0 <= i < j < order.len() ==> all[#[trigger] order[i] as int].sequence <= all[#[trigger] order[j] as int].sequence)
            && out.len() == (if limit < all.len() { limit } else { all.len() })
            && forall|i: int| 0 <= i < out.len() ==> out[i] == all[order[i] as int]
}

/// The key range a stream read after `from` scans: from the key of event
/// `from + 1` up to the stream range's upper bound, or `None` when no
/// sequence number follows `from`.
pub fn stream_read_range(namespace: &SorNamespace, stream_id: &str, from: u64) -> (r: Option<(Vec<u8>, Vec<u8>)>)
    ensures
        from == u64::MAX ==> r is None,
        from < u64::MAX ==> (r matches Some((lo, hi)) && lo@ == encode_utf8(
            keyspace_root(namespace.tenant_id@, namespace.sor_id@) + FdbKeyspace::stream_prefix(stream_id@)
                + padded_decimal((from + 1) as nat, sequence_width()),
        ) && hi@ == encode_utf8(
            keyspace_root(namespace.tenant_id@, namespace.sor_id@) + (FdbKeyspace::stream_prefix(stream_id@) + ":"@),
        )),
{
    if from == u64::MAX {
        return None;
    }
    let ks = FdbKeyspace::new(namespace);
    let lo = ks.canonical_event_key(stream_id, from + 1);
    let range = ks.canonical_event_stream_range(stream_id);
    proof {
        assert(ks.event_key_text(stream_id@, (from + 1) as u64) =~= keyspace_root(namespace.tenant_id@, namespace.sor_id@)
            + FdbKeyspace::stream_prefix(stream_id@) + padded_decimal((from + 1) as nat, sequence_width()));
    }
    Some((lo, range.1))
}

/// Selects, from the events a range read returned, those after `from`, in
/// sequence order, at most `limit` of them.
pub fn select_stream_events(events: Vec<SorEventRecord>, from: u64, limit: usize) -> (out: Vec<SorEventRecord>)
    ensures
        stream_selection(out@, events@, from, limit as nat),
{
    let ghost pred = |e: SorEventRecord| e.sequence > from;
    let n = events.len();
    let mut all: Vec<SorEventRecord> = Vec::new();
    for i in 0..n
        invariant
            n == events@.len(),
            pred == (|e: SorEventRecord| e.sequence > from),
            all@ == events@.take(i as int).filter(pred),
    {
        proof {
            assert(events@.take(i + 1) =~= events@.take(i as int).push(events@[i as int]));
            events@.take(i as int).lemma_filter_push(events@[i as int], pred);
        }
        if events[i].sequence > from {
            all.push(events[i].clone());
        }
    }
    assert(events@.take(n as int) =~= events@);
    let m = all.len();
    let mut keys: Vec<SequencedEvent> = Vec::new();
    for i in 0..m
        invariant
            m == all@.len(),
            keys@.len() == i,
            forall|j: int| 0 <= j < i ==> (#[trigger] keys@[j]).sequence == all@[j].sequence,
    {
        keys.push(SequencedEvent { sequence: all[i].sequence, index: i });
    }
    let ghost kv = keys@;
    let order = sorted_order(keys);
    let take = if limit < m { limit } else { m };
    let mut out: Vec<SorEventRecord> = Vec::new();
    for i in 0..take
        invariant
            take <= m,
            m == all@.len(),
            is_permutation(order@, m as nat),
            out@.len() == i,
            forall|j: int| 0 <= j < i ==> out@[j] == all@[order@[j] as int],
    {
        out.push(all[order[i]].clone());
    }
    proof {
        assert forall|i: int, j: int| 0 <= i < j < order@.len() implies all@[#[trigger] order@[i] as int].sequence <= all@[#[trigger] order@[j] as int].sequence by {
            assert(!kv[order@[j] as int].key_lt(kv[order@[i] as int]));
        }
    }
    out
}

} // verus!
