//! The ontology smoke scenario: a small Customer → Contract → Asset /
//! EvidenceDocument graph in a fresh in-memory provider, with one direct
//! relationship query and one bounded path search.
use vstd::prelude::*;

use crate::catalog::{entry_for_manifest, projects_ontology, ProviderCatalog};
use crate::fdb_keys::{entity_key_text, relationship_key_text};
use crate::fdb_paths::{distinct_refs, is_path_answer, steps_of, stored_rel, walk_nodes};
use crate::fdb_provider::{relationship_filter, FoundationDbProvider, StoreName};
use crate::pack::ProviderPackManifest;
use crate::sort::{is_permutation, lemma_permutation_onto};
use crate::rag::{ascii_lower_text, lower_text};
use crate::text::{concat, contains_text, decimal_string, owned, text_contains};
use crate::traits::{EntityStoreProvider, OntologyGraphProvider};
use crate::types::{
    unit_sep, ProviderOntologyCapabilities, EntityRecord, EntityRef, PathQuery, RelationshipDirection, RelationshipInstance,
    RelationshipQuery, RelationshipRef,
};

verus! {

/// `e` is the smoke entity of type `t` and id `id`.
pub open spec fn is_smoke_entity(e: EntityRef, t: Seq<char>, id: Seq<char>) -> bool {
    &&& e.entity_type@ == t
    &&& e.entity_id@ == id
    &&& e.namespace matches Some(n) && n@ == "ontology-smoke"@
    &&& e.version is None
}

/// An entity in the `ontology-smoke` namespace.
fn smoke_entity(entity_type: &str, entity_id: &str) -> (e: EntityRef)
    ensures
        is_smoke_entity(e, entity_type@, entity_id@),
{
    EntityRef {
        entity_type: owned(entity_type),
        entity_id: owned(entity_id),
        namespace: Some(owned("ontology-smoke")),
        version: None,
    }
}

/// A relationship of the smoke scenario.
fn smoke_relationship(relationship_type: &str, from: EntityRef, to: EntityRef) -> (r: RelationshipInstance)
    ensures
        r.relationship.relationship_type@ == relationship_type@,
        r.relationship.from == from,
        r.relationship.to == to,
{
    RelationshipInstance {
        relationship: RelationshipRef { relationship_type: owned(relationship_type), from, to },
        metadata_json: None,
        provenance: Some(owned("ontology-smoke")),
    }
}

/// `type id`, the label of a smoke entity.
fn smoke_label(e: &EntityRef) -> (label: String)
    ensures
        label@ == e.entity_type@ + seq![' '] + e.entity_id@,
{
    let head = concat(e.entity_type.as_str(), " ");
    proof {
        reveal_strlit(" ");
    }
    concat(head.as_str(), e.entity_id.as_str())
}

/// Two smoke entities whose types differ at position `i` have different keys.
proof fn lemma_smoke_keys_differ(
    e1: EntityRef,
    t1: Seq<char>,
    id1: Seq<char>,
    e2: EntityRef,
    t2: Seq<char>,
    id2: Seq<char>,
    i: int,
)
    requires
        is_smoke_entity(e1, t1, id1),
        is_smoke_entity(e2, t2, id2),
        0 <= i < t1.len(),
        i < t2.len(),
        t1[i] != t2[i],
    ensures
        entity_key_text(e1) != entity_key_text(e2),
{
    reveal_strlit("ontology-smoke");
    let n = "ontology-smoke"@;
    assert(n.len() == 14);
    let k1 = entity_key_text(e1);
    let k2 = entity_key_text(e2);
    assert(k1 == n + unit_sep() + t1 + unit_sep() + id1 + unit_sep() + Seq::<char>::empty());
    assert(k2 == n + unit_sep() + t2 + unit_sep() + id2 + unit_sep() + Seq::<char>::empty());
    assert((n + unit_sep() + t1)[15 + i] == t1[i]);
    assert((n + unit_sep() + t2)[15 + i] == t2[i]);
    assert(k1[15 + i] == (n + unit_sep() + t1)[15 + i]);
    assert(k2[15 + i] == (n + unit_sep() + t2)[15 + i]);
}

/// Two relationships whose types differ at position `i` have different keys.
proof fn lemma_relationship_keys_differ(r1: RelationshipRef, r2: RelationshipRef, i: int)
    requires
        0 <= i < r1.relationship_type@.len(),
        i < r2.relationship_type@.len(),
        r1.relationship_type@[i] != r2.relationship_type@[i],
    ensures
        relationship_key_text(r1) != relationship_key_text(r2),
{
    let t1 = r1.relationship_type@;
    let t2 = r2.relationship_type@;
    let rest1 = unit_sep() + entity_key_text(r1.from) + unit_sep() + entity_key_text(r1.to);
    let rest2 = unit_sep() + entity_key_text(r2.from) + unit_sep() + entity_key_text(r2.to);
    assert(relationship_key_text(r1) =~= t1 + rest1);
    assert(relationship_key_text(r2) =~= t2 + rest2);
    assert((t1 + rest1)[i] == t1[i]);
    assert((t2 + rest2)[i] == t2[i]);
}

/// In the smoke graph a → b, b → c, b → d, the only path of at most three
/// steps from a to d is a → b → d.
proof fn lemma_single_answer(q: PathQuery, r1: RelationshipInstance, r2: RelationshipInstance, r3: RelationshipInstance, w: Seq<RelationshipRef>)
    requires
        ({
            let a = entity_key_text(r1.relationship.from);
            let b = entity_key_text(r1.relationship.to);
            let c = entity_key_text(r2.relationship.to);
            let d = entity_key_text(r3.relationship.to);
            &&& entity_key_text(q.from) == a
            &&& entity_key_text(q.to) == d
            &&& entity_key_text(r2.relationship.from) == b
            &&& entity_key_text(r3.relationship.from) == b
            &&& a != b && a != c && a != d && b != c && b != d && c != d
        }),
        q.max_depth <= 3,
        is_path_answer(q, seq![r1, r2, r3], w),
    ensures
        w == seq![r1.relationship, r3.relationship],
{
    let rels = seq![r1, r2, r3];
    let a = entity_key_text(r1.relationship.from);
    let b = entity_key_text(r1.relationship.to);
    let c = entity_key_text(r2.relationship.to);
    let d = entity_key_text(r3.relationship.to);
    let nodes = walk_nodes(a, w);
    assert forall|i: int| 0 <= i < w.len() implies w[i] == r1.relationship || w[i] == r2.relationship || w[i] == r3.relationship by {
        assert(stored_rel(rels, w[i]));
        let j = choose|j: int| 0 <= j < rels.len() && (#[trigger] rels[j]).relationship == w[i];
    }
    assert(nodes[0] == a);
    assert(entity_key_text(w[0].from) == nodes[0]);
    assert(w[0] == r1.relationship);
    assert(nodes[1] == entity_key_text(w[0].to));
    assert(nodes[1] == b);
    if w.len() == 1 {
        assert(nodes.last() == nodes[1]);
    } else {
        assert(entity_key_text(w[1].from) == nodes[1]);
        assert(w[1] == r2.relationship || w[1] == r3.relationship);
        assert(nodes[2] == entity_key_text(w[1].to));
        if w[1] == r2.relationship {
            assert(nodes[2] == c);
            if w.len() == 2 {
                assert(nodes.last() == nodes[2]);
            } else {
                assert(entity_key_text(w[2].from) == nodes[2]);
            }
        } else {
            assert(nodes[2] == d);
            if w.len() == 3 {
                assert(entity_key_text(w[2].from) == nodes[2]);
            } else {
                assert(w =~= seq![r1.relationship, r3.relationship]);
            }
        }
    }
}

/// The smoke graph's graph checks: after storing four entities and the
/// relationships Customer → Contract (`has_contract`), Contract → Asset
/// (`governs`) and Contract → EvidenceDocument (`has_evidence`) in a fresh
/// provider, exactly one `has_contract` relationship leaves the customer and
/// exactly one path, of two steps, leads from the customer to the evidence
/// document. Returns the number of paths found.
pub fn smoke_foundationdb_graph() -> (r: Result<usize, String>)
    ensures
        r == Ok::<usize, String>(1),
{
    proof {
        reveal_strlit("Customer");
        reveal_strlit("Contract");
        reveal_strlit("Asset");
        reveal_strlit("EvidenceDocument");
        reveal_strlit("has_contract");
        reveal_strlit("governs");
        reveal_strlit("has_evidence");
    }
    let mut provider = FoundationDbProvider::for_tests();
    let customer = smoke_entity("Customer", "customer-001");
    let contract = smoke_entity("Contract", "contract-001");
    let asset = smoke_entity("Asset", "asset-001");
    let evidence = smoke_entity("EvidenceDocument", "doc-001");
    proof {
        lemma_smoke_keys_differ(customer, "Customer"@, "customer-001"@, contract, "Contract"@, "contract-001"@, 1);
        lemma_smoke_keys_differ(customer, "Customer"@, "customer-001"@, asset, "Asset"@, "asset-001"@, 0);
        lemma_smoke_keys_differ(customer, "Customer"@, "customer-001"@, evidence, "EvidenceDocument"@, "doc-001"@, 0);
        lemma_smoke_keys_differ(contract, "Contract"@, "contract-001"@, asset, "Asset"@, "asset-001"@, 0);
        lemma_smoke_keys_differ(contract, "Contract"@, "contract-001"@, evidence, "EvidenceDocument"@, "doc-001"@, 0);
        lemma_smoke_keys_differ(asset, "Asset"@, "asset-001"@, evidence, "EvidenceDocument"@, "doc-001"@, 0);
    }
    let ghost rels0 = provider.relationship_store();

    let ghost before = provider;
    let _ = provider.upsert_entity(
        EntityRecord { entity: customer.clone(), label: Some(smoke_label(&customer)), metadata_json: None },
    );
    proof {
        provider.lemma_agrees_outside(before, set![StoreName::Entities]);
    }
    let ghost before = provider;
    let _ = provider.upsert_entity(
        EntityRecord { entity: contract.clone(), label: Some(smoke_label(&contract)), metadata_json: None },
    );
    proof {
        provider.lemma_agrees_outside(before, set![StoreName::Entities]);
    }
    let ghost before = provider;
    let _ = provider.upsert_entity(
        EntityRecord { entity: asset.clone(), label: Some(smoke_label(&asset)), metadata_json: None },
    );
    proof {
        provider.lemma_agrees_outside(before, set![StoreName::Entities]);
    }
    let ghost before = provider;
    let _ = provider.upsert_entity(
        EntityRecord { entity: evidence.clone(), label: Some(smoke_label(&evidence)), metadata_json: None },
    );
    proof {
        provider.lemma_agrees_outside(before, set![StoreName::Entities]);
        assert(provider.relationship_store() == rels0);
    }

    let r1 = smoke_relationship("has_contract", customer.clone(), contract.clone());
    let r2 = smoke_relationship("governs", contract.clone(), asset.clone());
    let r3 = smoke_relationship("has_evidence", contract.clone(), evidence.clone());
    let ghost k1 = relationship_key_text(r1.relationship);
    let ghost k2 = relationship_key_text(r2.relationship);
    let ghost k3 = relationship_key_text(r3.relationship);
    proof {
        lemma_relationship_keys_differ(r1.relationship, r2.relationship, 0);
        lemma_relationship_keys_differ(r2.relationship, r3.relationship, 0);
        lemma_relationship_keys_differ(r1.relationship, r3.relationship, 4);
    }
    let ghost (g1, g2, g3) = (r1, r2, r3);
    let _ = provider.upsert_relationship(r1);
    proof {
        assert(!rels0.key_seq().contains(k1));
        assert(provider.relationship_store().key_seq() =~= seq![k1]);
        assert(provider.relationship_store().val_seq() =~= seq![g1]);
    }
    let _ = provider.upsert_relationship(r2);
    proof {
        assert(seq![k1][0] == k1);
        assert(!seq![k1].contains(k2));
        assert(provider.relationship_store().key_seq() =~= seq![k1, k2]);
        assert(provider.relationship_store().val_seq() =~= seq![g1, g2]);
    }
    let _ = provider.upsert_relationship(r3);
    let ghost vals = provider.relationship_store().val_seq();
    proof {
        assert(!seq![k1, k2].contains(k3));
        assert(vals =~= seq![g1, g2, g3]);
    }

    let mut roots: Vec<EntityRef> = Vec::new();
    roots.push(customer.clone());
    let query = RelationshipQuery {
        root_entities: roots,
        relationship_type: Some(owned("has_contract")),
        direction: RelationshipDirection::Outgoing,
        max_depth: Some(1),
        limit: 10,
    };
    let ghost qv = query;
    let direct = match provider.query_relationships(query) {
        Ok(found) => found,
        Err(_) => {
            return Err(owned("relationship query failed"));
        },
    };
    proof {
        let pred = relationship_filter(qv);
        reveal(Seq::filter);
        assert(Seq::<RelationshipInstance>::empty().filter(pred) =~= Seq::<RelationshipInstance>::empty());
        assert(seq![g1] =~= Seq::<RelationshipInstance>::empty().push(g1));
        assert(seq![g1, g2] =~= seq![g1].push(g2));
        assert(vals =~= seq![g1, g2].push(g3));
        Seq::<RelationshipInstance>::empty().lemma_filter_push(g1, pred);
        seq![g1].lemma_filter_push(g2, pred);
        seq![g1, g2].lemma_filter_push(g3, pred);
        assert(crate::fdb_provider::root_keys(qv) =~= seq![entity_key_text(customer)]);
        assert(crate::fdb_provider::root_keys(qv)[0] == entity_key_text(g1.relationship.from));
        assert(pred(g1));
        assert(!pred(g2));
        assert(!pred(g3));
        assert(vals.filter(pred) =~= seq![g1]);
    }
    if direct.len() != 1 {
        let prefix = owned("expected one direct relationship, got ");
        return Err(concat(prefix.as_str(), decimal_string(direct.len() as u64).as_str()));
    }

    let request = PathQuery {
        from: customer,
        to: evidence,
        relationship_types: Vec::new(),
        max_depth: 3,
        limit: 10,
    };
    let ghost pq = request;
    let paths = match provider.find_paths(request) {
        Ok(found) => found,
        Err(_) => {
            return Err(owned("path query failed"));
        },
    };
    proof {
        let w = seq![g1.relationship, g3.relationship];
        assert(distinct_refs(vals));
        assert forall|i: int| 0 <= i < paths@.len() implies steps_of(#[trigger] paths@[i]) == w by {
            lemma_single_answer(pq, g1, g2, g3, steps_of(paths@[i]));
        }
        if paths@.len() >= 2 {
            assert(steps_of(paths@[0]) == w);
            assert(steps_of(paths@[1]) == w);
        }
        assert(is_path_answer(pq, vals, w)) by {
            let nodes = walk_nodes(entity_key_text(pq.from), w);
            assert(nodes =~= seq![entity_key_text(customer), entity_key_text(contract), entity_key_text(evidence)]);
            assert(vals[0].relationship == w[0]);
            assert(vals[2].relationship == w[1]);
            assert(stored_rel(vals, w[0]));
            assert(stored_rel(vals, w[1]));
        }
        let i = choose|i: int| 0 <= i < paths@.len() && steps_of(#[trigger] paths@[i]) == w;
        assert(paths@.len() == 1);
        assert(steps_of(paths@[0]).len() == paths@[0].steps@.len());
    }
    if paths.len() != 1 || paths[0].steps.len() != 2 {
        return Err(owned("expected one two-step Customer to EvidenceDocument path"));
    }
    Ok(paths.len())
}

/// The ontology compatibility a catalog needs of a pack: a schema name and a
/// schema range that mentions `1.0.0`.
pub open spec fn compatibility_advertised(o: ProviderOntologyCapabilities) -> bool {
    &&& o.compatibility.supported_ontology_schema@.len() > 0
    &&& contains_text(o.compatibility.supported_ontology_schema_range@, "1.0.0"@)
}

/// The catalog's ontology check over pack manifests: every manifest carries
/// ontology capabilities (else `expected all smoke providers to advertise
/// ontology metadata`), and every entry of the catalog built from them
/// carries a schema and a `1.0.0` range (else `expected catalog ontology
/// compatibility metadata`). Returns the number of catalog entries.
pub fn check_catalog_ontology(manifests: &Vec<ProviderPackManifest>) -> (r: Result<usize, String>)
    ensures
        (exists|i: int| 0 <= i < manifests@.len() && (#[trigger] manifests@[i]).ontology_capabilities is None)
            ==> (r matches Err(m) && m@ == "expected all smoke providers to advertise ontology metadata"@),
        (forall|i: int| 0 <= i < manifests@.len() ==> (#[trigger] manifests@[i]).ontology_capabilities is Some)
            && (exists|i: int| 0 <= i < manifests@.len() && !compatibility_advertised((#[trigger] manifests@[i]).ontology_capabilities.unwrap()))
            ==> (r matches Err(m) && m@ == "expected catalog ontology compatibility metadata"@),
        (forall|i: int| 0 <= i < manifests@.len() ==> (#[trigger] manifests@[i]).ontology_capabilities is Some
            && compatibility_advertised(manifests@[i].ontology_capabilities.unwrap()))
            ==> r == Ok::<usize, String>(manifests@.len() as usize),
{
    let n = manifests.len();
    for i in 0..n
        invariant
            n == manifests@.len(),
            forall|j: int| 0 <= j < i ==> (#[trigger] manifests@[j]).ontology_capabilities is Some,
    {
        if manifests[i].ontology_capabilities.is_none() {
            return Err(owned("expected all smoke providers to advertise ontology metadata"));
        }
    }
    let catalog = ProviderCatalog::from_manifests(manifests.as_slice());
    let ghost order = choose|order: Seq<usize>|
        #[trigger] is_permutation(order, manifests@.len()) && forall|i: int|
            0 <= i < manifests@.len() ==> entry_for_manifest(
                #[trigger] catalog.entries@[i],
                manifests@[order[i] as int],
            );
    let m = catalog.entries.len();
    for i in 0..m
        invariant
            m == catalog.entries@.len(),
            m == manifests@.len(),
            is_permutation(order, manifests@.len()),
            forall|k: int| 0 <= k < manifests@.len() ==> entry_for_manifest(
                #[trigger] catalog.entries@[k],
                manifests@[order[k] as int],
            ),
            forall|j: int| 0 <= j < manifests@.len() ==> (#[trigger] manifests@[j]).ontology_capabilities is Some,
            forall|j: int| 0 <= j < i ==> compatibility_advertised(
                (#[trigger] manifests@[order[j] as int]).ontology_capabilities.unwrap(),
            ),
    {
        let bad = match &catalog.entries[i].ontology {
            None => true,
            Some(o) => o.supported_ontology_schema.as_str().is_empty() || !text_contains(
                o.supported_ontology_schema_range.as_str(),
                "1.0.0",
            ),
        };
        proof {
            let mi = manifests@[order[i as int] as int];
            assert(entry_for_manifest(catalog.entries@[i as int], mi));
            assert(mi.ontology_capabilities is Some);
            assert(bad == !compatibility_advertised(mi.ontology_capabilities.unwrap()));
        }
        if bad {
            proof {
                assert(!compatibility_advertised(manifests@[order[i as int] as int].ontology_capabilities.unwrap()));
            }
            return Err(owned("expected catalog ontology compatibility metadata"));
        }
    }
    proof {
        assert forall|j: int| 0 <= j < manifests@.len() implies compatibility_advertised(
            (#[trigger] manifests@[j]).ontology_capabilities.unwrap(),
        ) by {
            lemma_permutation_onto(order, manifests@.len(), j);
            let k = choose|k: int| 0 <= k < manifests@.len() && order[k] as int == j;
            assert(compatibility_advertised(manifests@[order[k] as int].ontology_capabilities.unwrap()));
        }
    }
    Ok(m)
}

/// The credential-like patterns generated artifacts must not hold, in the
/// order they are looked for: `password`, `secret`, `api_key`, `apikey`,
/// `credential`, `private_key`.
pub open spec fn forbidden(i: int) -> Seq<char> {
    if i == 0 {
        "password"@
    } else if i == 1 {
        "secret"@
    } else if i == 2 {
        "api_key"@
    } else if i == 3 {
        "apikey"@
    } else if i == 4 {
        "credential"@
    } else {
        "private_key"@
    }
}

/// The `i`-th credential-like pattern.
pub fn credential_pattern(i: usize) -> (p: &'static str)
    requires
        i < 6,
    ensures
        p@ == forbidden(i as int),
{
    if i == 0 {
        "password"
    } else if i == 1 {
        "secret"
    } else if i == 2 {
        "api_key"
    } else if i == 3 {
        "apikey"
    } else if i == 4 {
        "credential"
    } else {
        "private_key"
    }
}

/// The first credential-like pattern that the ASCII-lowercased text holds,
/// or `None` when it holds none of them.
pub fn credential_like_pattern(content: &str) -> (r: Option<usize>)
    ensures
        match r {
            Some(i) => i < 6 && contains_text(ascii_lower_text(content@), forbidden(i as int))
                && forall|j: int| 0 <= j < i ==> !contains_text(ascii_lower_text(content@), #[trigger] forbidden(j)),
            None => forall|j: int| 0 <= j < 6 ==> !contains_text(ascii_lower_text(content@), #[trigger] forbidden(j)),
        },
{
    let lowered = lower_text(content);
    let mut i: usize = 0;
    while i < 6
        invariant
            i <= 6,
            lowered@ == ascii_lower_text(content@),
            forall|j: int| 0 <= j < i ==> !contains_text(ascii_lower_text(content@), #[trigger] forbidden(j)),
        decreases 6 - i,
    {
        if text_contains(lowered.as_str(), credential_pattern(i)) {
            return Some(i);
        }
        i = i + 1;
    }
    None
}

} // verus!
