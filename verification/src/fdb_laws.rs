//! What holds of the FoundationDB provider across calls: a read gives back
//! what a write stored (entities, canonical entities, projections, appended
//! events), event revisions count up from one, an applied idempotency key
//! refuses a second write, and storing the same evidence link twice is
//! storing it once.
use vstd::prelude::*;

use crate::fdb_keys::{
    canonical_key_text, entity_key_text, idempotency_key_text, lemma_selection_members, projection_slot_text,
    selection_by_parts,
};
use crate::text::{chars_lt, contains_text, texts_contain};
use crate::tuple_key::parts_lt;
use crate::sort::is_permutation;
use crate::tuple_key::opt_view;
use crate::fdb_provider::{
    entity_filter, entity_order, relationship_filter, relationship_order, root_keys,
    canonical_write_refusal, first_link_slot, last_revision, put_into, same_link_slot, stream_slice,
    upsert_link, FoundationDbProvider, ProjectionState,
};
use crate::store::{keys_unique, put_keys, put_vals, value_at, KeyedStore};
use crate::types::{
    EntitySearchQuery, RelationshipDirection, RelationshipInstance, RelationshipQuery,
    CanonicalEntityRecord, CanonicalWriteRequest, EntityLink, EntityRecord, EventRecord, ProjectionRecord,
    SorEventRecord,
};

verus! {

proof fn lemma_unique_index_of(s: Seq<Seq<char>>, i: int)
    requires
        keys_unique(s),
        0 <= i < s.len(),
    ensures
        s.index_of(s[i]) == i,
{
    assert(s.contains(s[i]));
    let j = s.index_of(s[i]);
    assert(0 <= j < s.len() && s[j] == s[i]);
    if j != i {
        if j < i {
            assert(s[j] != s[i]);
        } else {
            assert(s[i] != s[j]);
        }
    }
}

/// Reading a key after storing a value under it gives that value; every
/// other key reads as before, and no key is repeated.
pub proof fn lemma_put_then_read<V>(keys: Seq<Seq<char>>, vals: Seq<V>, k: Seq<char>, v: V)
    requires
        keys_unique(keys),
        keys.len() == vals.len(),
    ensures
        keys_unique(put_keys(keys, k)),
        put_keys(keys, k).len() == put_vals(keys, vals, k, v).len(),
        value_at(put_keys(keys, k), put_vals(keys, vals, k, v), k) == Some(v),
        forall|k2: Seq<char>| k2 != k ==> value_at(put_keys(keys, k), put_vals(keys, vals, k, v), k2) == value_at(keys, vals, k2),
{
    let nk = put_keys(keys, k);
    let nv = put_vals(keys, vals, k, v);
    if keys.contains(k) {
        let i = keys.index_of(k);
        assert(0 <= i < keys.len() && keys[i] == k);
        lemma_unique_index_of(keys, i);
        assert forall|k2: Seq<char>| k2 != k implies value_at(nk, nv, k2) == value_at(keys, vals, k2) by {
            if keys.contains(k2) {
                let j = keys.index_of(k2);
                assert(0 <= j < keys.len() && keys[j] == k2);
                assert(j != i);
            }
        }
    } else {
        assert(nk[keys.len() as int] == k);
        assert forall|a: int, b: int| 0 <= a < b < nk.len() implies nk[a] != nk[b] by {
            if b == keys.len() {
                assert(nk[a] == keys[a]);
                assert(keys.contains(keys[a]));
            }
        }
        lemma_unique_index_of(nk, keys.len() as int);
        assert forall|k2: Seq<char>| k2 != k implies value_at(nk, nv, k2) == value_at(keys, vals, k2) by {
            if keys.contains(k2) {
                let j = keys.index_of(k2);
                assert(0 <= j < keys.len() && keys[j] == k2);
                lemma_unique_index_of(keys, j);
                assert(nk[j] == k2);
                lemma_unique_index_of(nk, j);
            } else {
                if nk.contains(k2) {
                    let j = choose|j: int| 0 <= j < nk.len() && nk[j] == k2;
                    if j < keys.len() {
                        assert(keys[j] == k2);
                    }
                }
            }
        }
    }
}

/// After an entity is stored, reading its reference gives it back.
pub proof fn law_entity_read_after_write(before: FoundationDbProvider, after: FoundationDbProvider, entity: EntityRecord)
    requires
        before.entity_store().well_formed(),
        put_into(before.entity_store(), after.entity_store(), entity_key_text(entity.entity), entity),
    ensures
        value_at(after.entity_store().key_seq(), after.entity_store().val_seq(), entity_key_text(entity.entity)) == Some(entity),
{
    lemma_put_then_read(
        before.entity_store().key_seq(),
        before.entity_store().val_seq(),
        entity_key_text(entity.entity),
        entity,
    );
}

/// After a canonical entity is stored, directly or by a canonical write,
/// reading it by namespace, type and id gives it back, and every other
/// canonical entity reads as before.
pub proof fn law_canonical_read_after_write(
    before: FoundationDbProvider,
    after: FoundationDbProvider,
    record: CanonicalEntityRecord,
)
    requires
        before.canonical_store().well_formed(),
        put_into(
            before.canonical_store(),
            after.canonical_store(),
            canonical_key_text(record.namespace, record.entity_type@, record.entity_id@),
            record,
        ),
    ensures
        value_at(
            after.canonical_store().key_seq(),
            after.canonical_store().val_seq(),
            canonical_key_text(record.namespace, record.entity_type@, record.entity_id@),
        ) == Some(record),
        forall|k: Seq<char>|
            k != canonical_key_text(record.namespace, record.entity_type@, record.entity_id@)
                ==> value_at(after.canonical_store().key_seq(), after.canonical_store().val_seq(), k)
                == value_at(before.canonical_store().key_seq(), before.canonical_store().val_seq(), k),
{
    lemma_put_then_read(
        before.canonical_store().key_seq(),
        before.canonical_store().val_seq(),
        canonical_key_text(record.namespace, record.entity_type@, record.entity_id@),
        record,
    );
}

/// Once a write has recorded an idempotency key, any write that carries the
/// same key in the same namespace is refused.
pub proof fn law_idempotency_key_refuses_repeat(
    before: FoundationDbProvider,
    after: FoundationDbProvider,
    applied: SorEventRecord,
    repeat: CanonicalWriteRequest,
    stream: Seq<SorEventRecord>,
)
    requires
        before.idempotency_store().well_formed(),
        applied.idempotency_key is Some,
        put_into(
            before.idempotency_store(),
            after.idempotency_store(),
            idempotency_key_text(applied.namespace, applied.idempotency_key.unwrap()@),
            applied.event_id,
        ),
        repeat.event.idempotency_key is Some,
        idempotency_key_text(repeat.event.namespace, repeat.event.idempotency_key.unwrap()@)
            == idempotency_key_text(applied.namespace, applied.idempotency_key.unwrap()@),
    ensures
        canonical_write_refusal(repeat, after.idempotency_store().key_seq(), stream) is Some,
{
    let k = idempotency_key_text(applied.namespace, applied.idempotency_key.unwrap()@);
    lemma_put_then_read(before.idempotency_store().key_seq(), before.idempotency_store().val_seq(), k, applied.event_id);
    assert(after.idempotency_store().key_seq().contains(k));
}

/// The revisions of a stream are 1, 2, 3, ... in order.
pub open spec fn revisions_count_up(events: Seq<EventRecord>) -> bool {
    forall|i: int| 0 <= i < events.len() ==> (#[trigger] events[i]).revision == i + 1
}

/// A new stream counts up, and an append, which gives the event the
/// revision after the stream's last, keeps the stream counting up; the last
/// revision is then the number of events.
pub proof fn law_append_keeps_revisions_counting(events: Seq<EventRecord>, record: EventRecord)
    requires
        revisions_count_up(events),
        record.revision == last_revision(events) + 1,
    ensures
        revisions_count_up(Seq::<EventRecord>::empty()),
        last_revision(events) == events.len(),
        revisions_count_up(events.push(record)),
        last_revision(events.push(record)) == events.len() + 1,
{
    if events.len() > 0 {
        assert(events[events.len() - 1].revision == events.len());
    }
}

/// Filtering by a predicate that no element meets leaves nothing.
proof fn lemma_filter_none<A>(s: Seq<A>, pred: spec_fn(A) -> bool)
    requires
        forall|i: int| 0 <= i < s.len() ==> !pred(#[trigger] s[i]),
    ensures
        s.filter(pred) =~= Seq::<A>::empty(),
    decreases s.len(),
{
    reveal(Seq::filter);
    if s.len() > 0 {
        assert forall|i: int| 0 <= i < s.drop_last().len() implies !pred(#[trigger] s.drop_last()[i]) by {
            assert(s.drop_last()[i] == s[i]);
        }
        lemma_filter_none(s.drop_last(), pred);
    }
}

/// Reading a stream from the revision an append gave its event returns that
/// event alone, when the stream's revisions count up from one.
pub proof fn law_read_after_append(events: Seq<EventRecord>, record: EventRecord, limit: nat)
    requires
        revisions_count_up(events),
        record.revision == last_revision(events) + 1,
        limit >= 1,
    ensures
        stream_slice(events.push(record), record.revision, limit) == seq![record],
{
    let pred = |e: EventRecord| e.revision >= record.revision;
    if events.len() > 0 {
        assert(events[events.len() - 1].revision == events.len());
    }
    lemma_filter_none(events, pred);
    events.lemma_filter_push(record, pred);
    assert(events.push(record).filter(pred) =~= seq![record]);
}

/// Reading a projection by the name and key it was persisted under gives the
/// persisted record back; every other slot reads as before.
pub proof fn law_projection_read_after_persist(
    before: Map<Seq<char>, ProjectionState>,
    after: Map<Seq<char>, ProjectionState>,
    name: Seq<char>,
    key: Seq<char>,
    record: ProjectionRecord,
)
    requires
        after.contains_key(projection_slot_text(name, key)),
        after == before.insert(projection_slot_text(name, key), after[projection_slot_text(name, key)]),
        after[projection_slot_text(name, key)].record == record,
    ensures
        after.contains_key(projection_slot_text(name, key)) && after[projection_slot_text(name, key)].record == record,
        forall|slot: Seq<char>| slot != projection_slot_text(name, key) ==> (after.contains_key(slot) == before.contains_key(slot)
            && (before.contains_key(slot) ==> after[slot] == before[slot])),
{
}

proof fn lemma_first_link_slot_found(links: Seq<EntityLink>, link: EntityLink)
    ensures
        first_link_slot(links, link) >= 0 ==> first_link_slot(links, link) < links.len() && same_link_slot(links[first_link_slot(links, link)], link)
            && forall|j: int| 0 <= j < first_link_slot(links, link) ==> !same_link_slot(#[trigger] links[j], link),
        first_link_slot(links, link) < 0 ==> first_link_slot(links, link) == -1 && forall|j: int| 0 <= j < links.len() ==> !same_link_slot(#[trigger] links[j], link),
    decreases links.len(),
{
    if links.len() > 0 {
        lemma_first_link_slot_found(links.drop_last(), link);
        let r = first_link_slot(links.drop_last(), link);
        if r >= 0 {
            assert forall|j: int| 0 <= j < r implies !same_link_slot(#[trigger] links[j], link) by {
                assert(links[j] == links.drop_last()[j]);
            }
            assert(links[r] == links.drop_last()[r]);
        } else {
            assert forall|j: int| 0 <= j < links.len() - 1 implies !same_link_slot(#[trigger] links[j], link) by {
                assert(links[j] == links.drop_last()[j]);
            }
        }
    }
}

proof fn lemma_first_link_slot_at(links: Seq<EntityLink>, link: EntityLink, i: int)
    requires
        0 <= i < links.len(),
        same_link_slot(links[i], link),
        forall|j: int| 0 <= j < i ==> !same_link_slot(#[trigger] links[j], link),
    ensures
        first_link_slot(links, link) == i,
    decreases links.len(),
{
    lemma_first_link_slot_found(links, link);
    let r = first_link_slot(links, link);
    if r < 0 {
        assert(!same_link_slot(links[i], link));
    } else if r < i {
        assert(!same_link_slot(links[r], link));
    } else if r > i {
        assert(!same_link_slot(links[i], link));
    }
}

/// Storing a link makes it one of the entity's links, replacing the first
/// link of the same source, evidence id and match kind, or adding one link;
/// storing the same link again changes nothing.
pub proof fn law_evidence_link_upsert(links: Seq<EntityLink>, link: EntityLink)
    ensures
        upsert_link(links, link).contains(link),
        upsert_link(links, link).len() == links.len() || upsert_link(links, link).len() == links.len() + 1,
        upsert_link(upsert_link(links, link), link) == upsert_link(links, link),
{
    lemma_first_link_slot_found(links, link);
    let i = first_link_slot(links, link);
    let once = upsert_link(links, link);
    assert(same_link_slot(link, link));
    if i >= 0 {
        assert(once[i] == link);
        assert forall|j: int| 0 <= j < i implies !same_link_slot(#[trigger] once[j], link) by {
            assert(once[j] == links[j]);
        }
        lemma_first_link_slot_at(once, link, i);
        assert(once.update(i, link) =~= once);
    } else {
        let n = links.len() as int;
        assert(once[n] == link);
        assert forall|j: int| 0 <= j < n implies !same_link_slot(#[trigger] once[j], link) by {
            assert(once[j] == links[j]);
        }
        lemma_first_link_slot_at(once, link, n);
        assert(once.update(n, link) =~= once);
    }
}

/// A text query finds an entity by any of its texts: a stored entity of an
/// admitted type and namespace whose id, label or metadata contains the query
/// text is returned, when no more entities match than the limit; and every
/// returned entity is stored, of an admitted type and namespace, and holds
/// the query text in its id, label or metadata.
pub proof fn law_entity_text_search(
    stored: Seq<EntityRecord>,
    q: EntitySearchQuery,
    found: Seq<EntityRecord>,
    r: EntityRecord,
)
    requires
        selection_by_parts(found, stored.filter(entity_filter(q)), entity_order(), q.limit as nat),
    ensures
        ({
            let t = q.query.unwrap()@;
            stored.contains(r) && q.query is Some
                && (q.entity_types@.len() == 0 || texts_contain(q.entity_types@, r.entity.entity_type@))
                && (q.namespace is None || opt_view(r.entity.namespace) == opt_view(q.namespace))
                && (contains_text(r.entity.entity_id@, t) || (r.label is Some && contains_text(r.label.unwrap()@, t))
                    || (r.metadata_json is Some && contains_text(r.metadata_json.unwrap()@, t)))
                && stored.filter(entity_filter(q)).len() <= q.limit ==> found.contains(r)
        }),
        stored.contains(r) && q.query is None
            && (q.entity_types@.len() == 0 || texts_contain(q.entity_types@, r.entity.entity_type@))
            && (q.namespace is None || opt_view(r.entity.namespace) == opt_view(q.namespace))
            && stored.filter(entity_filter(q)).len() <= q.limit ==> found.contains(r),
        found.len() <= q.limit,
        forall|i: int| 0 <= i < found.len() ==> {
            let e = #[trigger] found[i];
            &&& stored.contains(e)
            &&& q.entity_types@.len() == 0 || texts_contain(q.entity_types@, e.entity.entity_type@)
            &&& q.namespace is None || opt_view(e.entity.namespace) == opt_view(q.namespace)
            &&& q.query matches Some(t) ==> (contains_text(e.entity.entity_id@, t@) || (e.label is Some
                && contains_text(e.label.unwrap()@, t@)) || (e.metadata_json is Some && contains_text(
                e.metadata_json.unwrap()@,
                t@,
            )))
        },
{
    let all = stored.filter(entity_filter(q));
    lemma_selection_members(found, all, entity_order(), q.limit as nat);
    if stored.contains(r) && entity_filter(q)(r) {
        let k = choose|k: int| 0 <= k < stored.len() && stored[k] == r;
        stored.lemma_filter_contains(entity_filter(q), k);
    }
    assert forall|i: int| 0 <= i < found.len() implies stored.contains(#[trigger] found[i]) && entity_filter(q)(found[i]) by {
        assert(all.contains(found[i]));
        let j = choose|j: int| 0 <= j < all.len() && all[j] == found[i];
        stored.lemma_filter_pred(entity_filter(q), j);
        stored.lemma_filter_contains_rev(entity_filter(q), found[i]);
    }
}

/// A relationship query in both directions selects exactly the relationships
/// that the same query selects outgoing from the roots or incoming to them;
/// within the limit, a stored relationship whose target is a root is
/// returned.
pub proof fn law_relationships_both_is_union(
    stored: Seq<RelationshipInstance>,
    q: RelationshipQuery,
    found: Seq<RelationshipInstance>,
    r: RelationshipInstance,
)
    requires
        q.direction == RelationshipDirection::Both,
        selection_by_parts(found, stored.filter(relationship_filter(q)), relationship_order(), q.limit as nat),
    ensures
        relationship_filter(q)(r) == (relationship_filter(RelationshipQuery { direction: RelationshipDirection::Outgoing, ..q })(r)
            || relationship_filter(RelationshipQuery { direction: RelationshipDirection::Incoming, ..q })(r)),
        stored.contains(r) && root_keys(q).contains(entity_key_text(r.relationship.to)) && (q.relationship_type is None
            || q.relationship_type.unwrap()@ == r.relationship.relationship_type@)
            && stored.filter(relationship_filter(q)).len() <= q.limit ==> found.contains(r),
        stored.contains(r) && root_keys(q).contains(entity_key_text(r.relationship.from)) && (q.relationship_type is None
            || q.relationship_type.unwrap()@ == r.relationship.relationship_type@)
            && stored.filter(relationship_filter(q)).len() <= q.limit ==> found.contains(r),
{
    let all = stored.filter(relationship_filter(q));
    lemma_selection_members(found, all, relationship_order(), q.limit as nat);
    assert(root_keys(RelationshipQuery { direction: RelationshipDirection::Outgoing, ..q }) == root_keys(q));
    assert(root_keys(RelationshipQuery { direction: RelationshipDirection::Incoming, ..q }) == root_keys(q));
    if stored.contains(r) && relationship_filter(q)(r) {
        let k = choose|k: int| 0 <= k < stored.len() && stored[k] == r;
        stored.lemma_filter_contains(relationship_filter(q), k);
    }
}

/// A relationship query selects by type and by the roots in the direction
/// it names: a relationship of another type than the one named is never
/// selected; with no roots every relationship of the type is; outgoing takes
/// the relationships that leave a root and no other, incoming those that
/// reach a root and no other, both directions those that leave or reach one.
pub proof fn law_relationship_query_directions(q: RelationshipQuery, r: RelationshipInstance)
    ensures
        ({
            let roots = root_keys(q);
            let from = entity_key_text(r.relationship.from);
            let to = entity_key_text(r.relationship.to);
            let type_ok = q.relationship_type is None || q.relationship_type.unwrap()@ == r.relationship.relationship_type@;
            let selected = relationship_filter(q)(r);
            &&& !type_ok ==> !selected
            &&& type_ok && roots.len() == 0 ==> selected
            &&& q.direction == RelationshipDirection::Outgoing && type_ok && roots.contains(from) ==> selected
            &&& q.direction == RelationshipDirection::Outgoing && roots.len() > 0 && !roots.contains(from) ==> !selected
            &&& q.direction == RelationshipDirection::Incoming && type_ok && roots.contains(to) ==> selected
            &&& q.direction == RelationshipDirection::Incoming && roots.len() > 0 && !roots.contains(to) ==> !selected
            &&& q.direction == RelationshipDirection::Both && type_ok && (roots.contains(from) || roots.contains(to)) ==> selected
            &&& q.direction == RelationshipDirection::Both && roots.len() > 0 && !roots.contains(from) && !roots.contains(to)
                ==> !selected
        }),
{
}

/// Entity search results come ordered by entity type, and entities of one
/// type by id.
pub proof fn law_entity_search_order(found: Seq<EntityRecord>, all: Seq<EntityRecord>, limit: nat)
    requires
        selection_by_parts(found, all, entity_order(), limit),
    ensures
        forall|i: int, j: int| 0 <= i < j < found.len() ==> {
            &&& !chars_lt((#[trigger] found[j]).entity.entity_type@, (#[trigger] found[i]).entity.entity_type@)
            &&& found[j].entity.entity_type@ == found[i].entity.entity_type@ ==> !chars_lt(
                found[j].entity.entity_id@,
                found[i].entity.entity_id@,
            )
        },
{
    let order = choose|order: Seq<usize>|
        #[trigger] is_permutation(order, all.len()) && (forall|i: int, j: int|
            0 <= i < j < order.len() ==> !parts_lt(
                entity_order()(all[#[trigger] order[j] as int]),
                entity_order()(all[#[trigger] order[i] as int]),
            )) && (forall|i: int, j: int|
            0 <= i < j < order.len() && entity_order()(all[#[trigger] order[i] as int]) == entity_order()(
                all[#[trigger] order[j] as int],
            ) ==> order[i] < order[j]) && found.len() == (if limit < all.len() {
            limit
        } else {
            all.len()
        }) && forall|i: int| 0 <= i < found.len() ==> found[i] == all[order[i] as int];
    assert forall|i: int, j: int| 0 <= i < j < found.len() implies {
        &&& !chars_lt((#[trigger] found[j]).entity.entity_type@, (#[trigger] found[i]).entity.entity_type@)
        &&& found[j].entity.entity_type@ == found[i].entity.entity_type@ ==> !chars_lt(
            found[j].entity.entity_id@,
            found[i].entity.entity_id@,
        )
    } by {
        let a = crate::fdb_keys::entity_order_parts(found[j]);
        let b = crate::fdb_keys::entity_order_parts(found[i]);
        assert(!parts_lt(entity_order()(all[order[j] as int]), entity_order()(all[order[i] as int])));
        assert(!parts_lt(a, b));
        crate::text::lemma_chars_lt_irreflexive(found[j].entity.entity_type@);
        crate::text::lemma_chars_lt_irreflexive(found[j].entity.entity_id@);
        assert(a.drop_first()[0] == a[1] && b.drop_first()[0] == b[1]);
        assert(a.drop_first().len() > 0 && b.drop_first().len() > 0);
        reveal_with_fuel(parts_lt, 2);
    }
}

} // verus!
