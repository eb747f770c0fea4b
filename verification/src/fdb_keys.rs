//! Composite keys of the in-memory FoundationDB provider and the orders in
//! which it returns records.
use vstd::prelude::*;

use crate::keyspace::{encode_key_segment, encode_segment};
use crate::sort::{keeps_ties, is_permutation, orders_keys, SortKey};
use crate::text::{decimal, decimal_chars, push_char, push_str};
use crate::tuple_key::{opt_view, parts_lt, TupleKey};
use crate::types::{
    unit_sep, EntityLink, EntityRecord, EntityRef, OntologyPath, OntologyPathStep,
    RelationshipInstance, RelationshipRef, SorNamespace,
};
use vstd::utf8::encode_utf8;

verus! {

/// The text of an optional string, empty when absent.
pub open spec fn opt_text(o: Option<String>) -> Seq<char> {
    match o {
        Some(s) => s@,
        None => Seq::empty(),
    }
}

/// Namespace, type, id and version separated by unit separators.
pub open spec fn entity_key_text(e: EntityRef) -> Seq<char> {
    opt_text(e.namespace) + unit_sep() + e.entity_type@ + unit_sep() + e.entity_id@ + unit_sep()
        + opt_text(e.version)
}

/// Production namespace key, type and id separated by unit separators.
pub open spec fn canonical_key_text(ns: SorNamespace, entity_type: Seq<char>, entity_id: Seq<char>) -> Seq<char> {
    ns.production_key_text() + unit_sep() + entity_type + unit_sep() + entity_id
}

/// Production namespace key and idempotency key separated by a unit separator.
pub open spec fn idempotency_key_text(ns: SorNamespace, key: Seq<char>) -> Seq<char> {
    ns.production_key_text() + unit_sep() + key
}

/// Relationship type, source entity key and target entity key.
pub open spec fn relationship_key_text(r: RelationshipRef) -> Seq<char> {
    r.relationship_type@ + unit_sep() + entity_key_text(r.from) + unit_sep() + entity_key_text(r.to)
}

/// The slot of a projection: its encoded name and encoded key joined by `/`.
pub open spec fn projection_slot_text(name: Seq<char>, key: Seq<char>) -> Seq<char> {
    encode_segment(encode_utf8(name)) + seq!['/'] + encode_segment(encode_utf8(key))
}

/// `name@revision`.
pub open spec fn checkpoint_token_text(name: Seq<char>, revision: u64) -> Seq<char> {
    name + seq!['@'] + decimal(revision as nat)
}

fn push_opt(out: &mut String, o: &Option<String>)
    ensures
        final(out)@ == old(out)@ + opt_text(*o),
{
    match o {
        Some(s) => push_str(out, s.as_str()),
        None => {
            assert(old(out)@ + Seq::<char>::empty() =~= old(out)@);
        },
    }
}

pub fn entity_key(e: &EntityRef) -> (k: String)
    ensures
        k@ == entity_key_text(*e),
{
    let mut k = String::new();
    push_opt(&mut k, &e.namespace);
    push_char(&mut k, '\u{1f}');
    push_str(&mut k, e.entity_type.as_str());
    push_char(&mut k, '\u{1f}');
    push_str(&mut k, e.entity_id.as_str());
    push_char(&mut k, '\u{1f}');
    push_opt(&mut k, &e.version);
    assert(k@ =~= entity_key_text(*e));
    k
}

pub fn canonical_entity_key(ns: &SorNamespace, entity_type: &str, entity_id: &str) -> (k: String)
    ensures
        k@ == canonical_key_text(*ns, entity_type@, entity_id@),
{
    let mut k = ns.production_key();
    push_char(&mut k, '\u{1f}');
    push_str(&mut k, entity_type);
    push_char(&mut k, '\u{1f}');
    push_str(&mut k, entity_id);
    assert(k@ =~= canonical_key_text(*ns, entity_type@, entity_id@));
    k
}

pub fn idempotency_slot(ns: &SorNamespace, key: &str) -> (k: String)
    ensures
        k@ == idempotency_key_text(*ns, key@),
{
    let mut k = ns.production_key();
    push_char(&mut k, '\u{1f}');
    push_str(&mut k, key);
    assert(k@ =~= idempotency_key_text(*ns, key@));
    k
}

pub fn relationship_key(r: &RelationshipRef) -> (k: String)
    ensures
        k@ == relationship_key_text(*r),
{
    let mut k = r.relationship_type.clone();
    push_char(&mut k, '\u{1f}');
    let from = entity_key(&r.from);
    push_str(&mut k, from.as_str());
    push_char(&mut k, '\u{1f}');
    let to = entity_key(&r.to);
    push_str(&mut k, to.as_str());
    assert(k@ =~= relationship_key_text(*r));
    k
}

pub fn projection_slot(name: &str, key: &str) -> (k: String)
    ensures
        k@ == projection_slot_text(name@, key@),
{
    let mut k = encode_key_segment(name);
    push_char(&mut k, '/');
    let e = encode_key_segment(key);
    push_str(&mut k, e.as_str());
    assert(k@ =~= projection_slot_text(name@, key@));
    k
}

pub fn checkpoint_token(name: &str, revision: u64) -> (t: String)
    ensures
        t@ == checkpoint_token_text(name@, revision),
{
    let mut t = crate::text::owned(name);
    push_char(&mut t, '@');
    let digits = decimal_chars(revision);
    let d = crate::text::string_of(digits.as_slice());
    push_str(&mut t, d.as_str());
    assert(t@ =~= checkpoint_token_text(name@, revision));
    t
}

/// The order of entity search results: type, id, namespace, version.
pub open spec fn entity_order_parts(r: EntityRecord) -> Seq<Option<Seq<char>>> {
    seq![
        Some(r.entity.entity_type@),
        Some(r.entity.entity_id@),
        opt_view(r.entity.namespace),
        opt_view(r.entity.version),
    ]
}

/// The order of an entity's evidence links: source, evidence id, match kind.
pub open spec fn link_source_parts(l: EntityLink) -> Seq<Option<Seq<char>>> {
    seq![Some(l.source_ref@), opt_view(l.evidence_id), Some(l.match_kind@)]
}

/// The order of linked entities: entity key, source, evidence id.
pub open spec fn link_entity_parts(l: EntityLink) -> Seq<Option<Seq<char>>> {
    seq![Some(entity_key_text(l.entity)), Some(l.source_ref@), opt_view(l.evidence_id)]
}

/// The order of paths: the keys of their steps' relationships.
pub open spec fn path_parts(p: OntologyPath) -> Seq<Option<Seq<char>>> {
    p.steps@.map_values(|s: OntologyPathStep| Some(relationship_key_text(s.relationship)))
}

fn some_clone(s: &String) -> (o: Option<String>)
    ensures
        opt_view(o) == Some(s@),
{
    Some(s.clone())
}

fn opt_clone(o: &Option<String>) -> (r: Option<String>)
    ensures
        opt_view(r) == opt_view(*o),
{
    match o {
        Some(s) => Some(s.clone()),
        None => None,
    }
}

pub fn entity_order_key(r: &EntityRecord) -> (k: TupleKey)
    ensures
        k.parts_view() == entity_order_parts(*r),
{
    let mut parts: Vec<Option<String>> = Vec::new();
    parts.push(some_clone(&r.entity.entity_type));
    parts.push(some_clone(&r.entity.entity_id));
    parts.push(opt_clone(&r.entity.namespace));
    parts.push(opt_clone(&r.entity.version));
    let k = TupleKey { parts };
    assert(k.parts_view() =~= entity_order_parts(*r));
    k
}

pub fn link_source_key(l: &EntityLink) -> (k: TupleKey)
    ensures
        k.parts_view() == link_source_parts(*l),
{
    let mut parts: Vec<Option<String>> = Vec::new();
    parts.push(some_clone(&l.source_ref));
    parts.push(opt_clone(&l.evidence_id));
    parts.push(some_clone(&l.match_kind));
    let k = TupleKey { parts };
    assert(k.parts_view() =~= link_source_parts(*l));
    k
}

pub fn link_entity_key(l: &EntityLink) -> (k: TupleKey)
    ensures
        k.parts_view() == link_entity_parts(*l),
{
    let mut parts: Vec<Option<String>> = Vec::new();
    parts.push(Some(entity_key(&l.entity)));
    parts.push(some_clone(&l.source_ref));
    parts.push(opt_clone(&l.evidence_id));
    let k = TupleKey { parts };
    assert(k.parts_view() =~= link_entity_parts(*l));
    k
}

pub fn path_key(p: &OntologyPath) -> (k: TupleKey)
    ensures
        k.parts_view() == path_parts(*p),
{
    let mut parts: Vec<Option<String>> = Vec::new();
    let n = p.steps.len();
    for i in 0..n
        invariant
            n == p.steps@.len(),
            parts@.map_values(|o: Option<String>| opt_view(o)) =~= path_parts(*p).take(i as int),
    {
        let rk = relationship_key(&p.steps[i].relationship);
        let ghost before = parts@;
        parts.push(Some(rk));
        assert(path_parts(*p)[i as int] == Some(rk@));
        assert(parts@.map_values(|o: Option<String>| opt_view(o)) =~= before.map_values(
            |o: Option<String>| opt_view(o),
        ).push(Some(rk@)));
        assert(parts@.map_values(|o: Option<String>| opt_view(o)) =~= path_parts(*p).take(i + 1));
    }
    let k = TupleKey { parts };
    assert(path_parts(*p).take(n as int) =~= path_parts(*p));
    k
}

/// `out` holds the first `limit` records of `all` in the order of `key`,
/// records with equal keys in the order they have in `all`.
pub open spec fn selection_by_parts<T>(
    out: Seq<T>,
    all: Seq<T>,
    key: spec_fn(T) -> Seq<Option<Seq<char>>>,
    limit: nat,
) -> bool {
    exists|order: Seq<usize>|
        #[trigger] is_permutation(order, all.len()) && (forall|i: int, j: int|
            0 <= i < j < order.len() ==> !parts_lt(
                key(all[#[trigger] order[j] as int]),
                key(all[#[trigger] order[i] as int]),
            )) && (forall|i: int, j: int|
            0 <= i < j < order.len() && key(all[#[trigger] order[i] as int]) == key(
                all[#[trigger] order[j] as int],
            ) ==> order[i] < order[j]) && out.len() == (if limit < all.len() {
            limit
        } else {
            all.len()
        }) && forall|i: int| 0 <= i < out.len() ==> out[i] == all[order[i] as int]
}

/// Sorting the keys of `all` and taking the first `limit` gives a selection.
pub proof fn lemma_selection<T>(
    out: Seq<T>,
    all: Seq<T>,
    keys: Seq<TupleKey>,
    order: Seq<usize>,
    key: spec_fn(T) -> Seq<Option<Seq<char>>>,
    limit: nat,
)
    requires
        keys.len() == all.len(),
        forall|i: int| 0 <= i < all.len() ==> (#[trigger] keys[i]).parts_view() == key(all[i]),
        is_permutation(order, all.len()),
        orders_keys(keys, order),
        keeps_ties(keys, order),
        out.len() == (if limit < all.len() {
            limit
        } else {
            all.len()
        }),
        forall|i: int| 0 <= i < out.len() ==> out[i] == all[order[i] as int],
    ensures
        selection_by_parts(out, all, key, limit),
{
    assert forall|i: int, j: int| 0 <= i < j < order.len() implies !parts_lt(
        key(all[#[trigger] order[j] as int]),
        key(all[#[trigger] order[i] as int]),
    ) by {
        assert(!keys[order[j] as int].key_lt(keys[order[i] as int]));
    }
    assert forall|i: int, j: int|
        0 <= i < j < order.len() && key(all[#[trigger] order[i] as int]) == key(
            all[#[trigger] order[j] as int],
        ) implies order[i] < order[j] by {
        crate::tuple_key::lemma_parts_lt_irreflexive(key(all[order[i] as int]));
        assert(!keys[order[i] as int].key_lt(keys[order[j] as int]));
    }
}

/// A selection keeps every candidate when there are no more candidates than
/// the limit, and takes only candidates.
pub proof fn lemma_selection_members<T>(
    out: Seq<T>,
    all: Seq<T>,
    key: spec_fn(T) -> Seq<Option<Seq<char>>>,
    limit: nat,
)
    requires
        selection_by_parts(out, all, key, limit),
    ensures
        all.len() <= limit ==> forall|x: T| all.contains(x) ==> out.contains(x),
        forall|i: int| 0 <= i < out.len() ==> all.contains(#[trigger] out[i]),
        out.len() <= limit,
{
    let order = choose|order: Seq<usize>|
        #[trigger] is_permutation(order, all.len()) && (forall|i: int, j: int|
            0 <= i < j < order.len() ==> !parts_lt(
                key(all[#[trigger] order[j] as int]),
                key(all[#[trigger] order[i] as int]),
            )) && (forall|i: int, j: int|
            0 <= i < j < order.len() && key(all[#[trigger] order[i] as int]) == key(
                all[#[trigger] order[j] as int],
            ) ==> order[i] < order[j]) && out.len() == (if limit < all.len() {
            limit
        } else {
            all.len()
        }) && forall|i: int| 0 <= i < out.len() ==> out[i] == all[order[i] as int];
    assert forall|i: int| 0 <= i < out.len() implies all.contains(#[trigger] out[i]) by {
        assert(out[i] == all[order[i] as int]);
    }
    if all.len() <= limit {
        assert forall|x: T| all.contains(x) implies out.contains(x) by {
            let j = choose|j: int| 0 <= j < all.len() && all[j] == x;
            crate::sort::lemma_permutation_onto(order, all.len(), j);
            let i = choose|i: int| 0 <= i < all.len() && order[i] as int == j;
            assert(out[i] == x);
        }
    }
}

} // verus!
