//! Bounded, cycle-safe path finding over stored relationships: breadth first,
//! shortest paths first, results in the order of their steps' keys.
use vstd::prelude::*;

use crate::fdb_keys::{entity_key, entity_key_text, path_key, path_parts, relationship_key, relationship_key_text};
use crate::sort::{is_permutation, orders_keys, sort_by_key, sorted_order, SortKey};
use crate::store::keys_unique;
use crate::text::{chars_lt, list_contains_text, same_text, texts_contain};
use crate::tuple_key::{parts_lt, TupleKey};
use crate::types::{
    OntologyPath, OntologyPathStep, PathQuery, RelationshipDirection, RelationshipInstance,
    RelationshipRef,
};

verus! {

broadcast use vstd::seq_lib::group_to_multiset_ensures;

/// The relationships a path takes, step by step.
pub open spec fn steps_of(p: OntologyPath) -> Seq<RelationshipRef> {
    p.steps@.map_values(|s: OntologyPathStep| s.relationship)
}

/// No two relationships share a reference.
pub open spec fn distinct_refs(rels: Seq<RelationshipInstance>) -> bool {
    forall|i: int, j: int|
        0 <= i < j < rels.len() ==> (#[trigger] rels[i]).relationship != (#[trigger] rels[j]).relationship
}

/// No two paths take the same steps.
pub open spec fn distinct_paths(paths: Seq<OntologyPath>) -> bool {
    forall|i: int, j: int| 0 <= i < j < paths.len() ==> steps_of(#[trigger] paths[i]) != steps_of(#[trigger] paths[j])
}

/// The entity keys a walk visits: its start, then each step's target.
pub open spec fn walk_nodes(start: Seq<char>, w: Seq<RelationshipRef>) -> Seq<Seq<char>> {
    seq![start] + w.map_values(|r: RelationshipRef| entity_key_text(r.to))
}

/// `r` is the reference of a stored relationship.
pub open spec fn stored_rel(rels: Seq<RelationshipInstance>, r: RelationshipRef) -> bool {
    exists|j: int| 0 <= j < rels.len() && (#[trigger] rels[j]).relationship == r
}

/// A path query admits relationships of type `t`.
pub open spec fn type_allowed(q: PathQuery, t: Seq<char>) -> bool {
    q.relationship_types@.len() == 0 || texts_contain(q.relationship_types@, t)
}

/// `w` walks from the query's start along stored relationships of admitted
/// types, each leaving the entity the walk is at, and never visits an entity twice.
pub open spec fn is_simple_walk(q: PathQuery, rels: Seq<RelationshipInstance>, w: Seq<RelationshipRef>) -> bool {
    let nodes = walk_nodes(entity_key_text(q.from), w);
    &&& forall|i: int| 0 <= i < w.len() ==> stored_rel(rels, #[trigger] w[i])
    &&& forall|i: int| 0 <= i < w.len() ==> type_allowed(q, (#[trigger] w[i]).relationship_type@)
    &&& forall|i: int| 0 <= i < w.len() ==> entity_key_text((#[trigger] w[i]).from) == nodes[i]
    &&& keys_unique(nodes)
}

/// `w` answers the query: a simple walk of one to `max_depth` steps that ends
/// at the query's target.
pub open spec fn is_path_answer(q: PathQuery, rels: Seq<RelationshipInstance>, w: Seq<RelationshipRef>) -> bool {
    &&& is_simple_walk(q, rels, w)
    &&& 1 <= w.len() <= q.max_depth
    &&& walk_nodes(entity_key_text(q.from), w).last() == entity_key_text(q.to)
}

/// `w` is a simple walk of `len` steps that has not reached the target after
/// its start.
pub open spec fn is_open_walk(q: PathQuery, rels: Seq<RelationshipInstance>, w: Seq<RelationshipRef>, len: nat) -> bool {
    &&& w.len() == len
    &&& is_simple_walk(q, rels, w)
    &&& forall|k: int|
        1 <= k <= w.len() ==> #[trigger] walk_nodes(entity_key_text(q.from), w)[k]
            != entity_key_text(q.to)
}

/// `paths` answers a path query over `rels`: every path is an answer, paths
/// come in the order of their steps' keys, all answers come back unless at
/// least `limit` paths do, and no answer left out is shorter than a returned one.
pub open spec fn answers_path_query(
    paths: Seq<OntologyPath>,
    q: PathQuery,
    rels: Seq<RelationshipInstance>,
) -> bool {
    &&& forall|i: int|
        0 <= i < paths.len() ==> {
            &&& (#[trigger] paths[i]).start == q.from
            &&& paths[i].end == q.to
            &&& is_path_answer(q, rels, steps_of(paths[i]))
            &&& forall|k: int|
                0 <= k < paths[i].steps@.len() ==> (#[trigger] paths[i].steps@[k]).direction
                    == RelationshipDirection::Outgoing
        }
    &&& forall|i: int, j: int|
        0 <= i < j < paths.len() ==> !parts_lt(
            path_parts(#[trigger] paths[j]),
            path_parts(#[trigger] paths[i]),
        )
    &&& paths.len() < q.limit ==> forall|w: Seq<RelationshipRef>|
        is_path_answer(q, rels, w) ==> exists|i: int|
            0 <= i < paths.len() && steps_of(#[trigger] paths[i]) == w
    &&& forall|w: Seq<RelationshipRef>, i: int|
        #![trigger is_path_answer(q, rels, w), paths[i]]
        is_path_answer(q, rels, w) && 0 <= i < paths.len() && (forall|k: int|
            0 <= k < paths.len() ==> steps_of(#[trigger] paths[k]) != w) ==> w.len()
            >= paths[i].steps@.len()
}

/// A relationship together with its key, ordered by the key.
pub struct KeyedRelationship {
    pub key: String,
    pub rel: RelationshipInstance,
}

impl SortKey for KeyedRelationship {
    open spec fn key_lt(self, other: Self) -> bool {
        chars_lt(self.key@, other.key@)
    }

    fn key_less(&self, other: &Self) -> (r: bool) {
        crate::text::string_lt(&self.key, &other.key)
    }

    proof fn lemma_key_lt_irreflexive(a: Self) {
        crate::text::lemma_chars_lt_irreflexive(a.key@);
    }

    proof fn lemma_key_lt_transitive(a: Self, b: Self, c: Self) {
        crate::text::lemma_chars_lt_transitive(a.key@, b.key@, c.key@);
    }

    proof fn lemma_key_lt_negative_transitive(a: Self, b: Self, c: Self) {
        crate::text::lemma_chars_lt_negative_transitive(a.key@, b.key@, c.key@);
    }
}

proof fn lemma_walk_nodes_push(start: Seq<char>, w: Seq<RelationshipRef>, r: RelationshipRef)
    ensures
        walk_nodes(start, w.push(r)) == walk_nodes(start, w).push(entity_key_text(r.to)),
        walk_nodes(start, w).len() == w.len() + 1,
{
    assert(w.push(r).map_values(|x: RelationshipRef| entity_key_text(x.to)) =~= w.map_values(
        |x: RelationshipRef| entity_key_text(x.to),
    ).push(entity_key_text(r.to)));
    assert(walk_nodes(start, w.push(r)) =~= walk_nodes(start, w).push(entity_key_text(r.to)));
}

/// Extending a simple walk by one relationship.
proof fn lemma_extend_walk(q: PathQuery, rels: Seq<RelationshipInstance>, w: Seq<RelationshipRef>, r: RelationshipRef)
    requires
        is_simple_walk(q, rels, w),
    ensures
        is_simple_walk(q, rels, w.push(r)) <==> (stored_rel(rels, r) && type_allowed(
            q,
            r.relationship_type@,
        ) && entity_key_text(r.from) == walk_nodes(entity_key_text(q.from), w).last()
            && !walk_nodes(entity_key_text(q.from), w).contains(entity_key_text(r.to))),
{
    let start = entity_key_text(q.from);
    let nodes = walk_nodes(start, w);
    let w2 = w.push(r);
    let nodes2 = walk_nodes(start, w2);
    lemma_walk_nodes_push(start, w, r);
    assert(w2[w.len() as int] == r);
    if is_simple_walk(q, rels, w2) {
        assert(stored_rel(rels, w2[w.len() as int]));
        assert(type_allowed(q, w2[w.len() as int].relationship_type@));
        assert(entity_key_text(w2[w.len() as int].from) == nodes2[w.len() as int]);
        if nodes.contains(entity_key_text(r.to)) {
            let k = choose|k: int| 0 <= k < nodes.len() && nodes[k] == entity_key_text(r.to);
            assert(nodes2[k] == nodes2[nodes.len() as int]);
        }
    }
    if stored_rel(rels, r) && type_allowed(q, r.relationship_type@) && entity_key_text(r.from)
        == nodes.last() && !nodes.contains(entity_key_text(r.to)) {
        assert forall|i: int| 0 <= i < w2.len() implies stored_rel(rels, #[trigger] w2[i]) by {
            if i < w.len() {
                assert(w2[i] == w[i]);
            }
        }
        assert forall|i: int| 0 <= i < w2.len() implies type_allowed(
            q,
            (#[trigger] w2[i]).relationship_type@,
        ) by {
            if i < w.len() {
                assert(w2[i] == w[i]);
            }
        }
        assert forall|i: int| 0 <= i < w2.len() implies entity_key_text((#[trigger] w2[i]).from)
            == nodes2[i] by {
            if i < w.len() {
                assert(w2[i] == w[i]);
            }
        }
        assert forall|i: int, j: int| 0 <= i < j < nodes2.len() implies nodes2[i] != nodes2[j] by {
            if j == nodes.len() {
                assert(nodes2[i] == nodes[i]);
            }
        }
    }
}

/// The walk without its last step.
proof fn lemma_walk_prefix(q: PathQuery, rels: Seq<RelationshipInstance>, w: Seq<RelationshipRef>)
    requires
        is_simple_walk(q, rels, w),
        w.len() > 0,
    ensures
        is_simple_walk(q, rels, w.drop_last()),
        w == w.drop_last().push(w.last()),
        walk_nodes(entity_key_text(q.from), w) == walk_nodes(entity_key_text(q.from), w.drop_last()).push(
            entity_key_text(w.last().to),
        ),
{
    let p = w.drop_last();
    assert(w =~= p.push(w.last()));
    lemma_walk_nodes_push(entity_key_text(q.from), p, w.last());
    {
        let start = entity_key_text(q.from);
        let np = walk_nodes(start, p);
        let nw = walk_nodes(start, w);
        assert forall|i: int| 0 <= i < p.len() implies stored_rel(rels, #[trigger] p[i]) by {
            assert(p[i] == w[i]);
        }
        assert forall|i: int| 0 <= i < p.len() implies type_allowed(
            q,
            (#[trigger] p[i]).relationship_type@,
        ) by {
            assert(p[i] == w[i]);
        }
        assert forall|i: int| 0 <= i < p.len() implies entity_key_text((#[trigger] p[i]).from)
            == np[i] by {
            assert(p[i] == w[i]);
            assert(np[i] == nw[i]);
        }
        assert forall|i: int, j: int| 0 <= i < j < np.len() implies np[i] != np[j] by {
            assert(np[i] == nw[i]);
            assert(np[j] == nw[j]);
        }
    }
}

/// Appending a walk that `s` does not hold keeps `s` free of duplicates.
proof fn lemma_push_no_dup(s: Seq<Seq<RelationshipRef>>, x: Seq<RelationshipRef>)
    requires
        s.no_duplicates(),
        !s.contains(x),
    ensures
        s.push(x).no_duplicates(),
{
    let t = s.push(x);
    assert forall|i: int, j: int| 0 <= i < t.len() && 0 <= j < t.len() && i != j implies t[i] != t[j] by {
        if i == s.len() {
            assert(t[j] == s[j]);
        } else if j == s.len() {
            assert(t[i] == s[i]);
        } else {
            assert(t[i] == s[i] && t[j] == s[j]);
        }
    }
}

fn clone_refs(v: &Vec<RelationshipRef>) -> (r: Vec<RelationshipRef>)
    ensures
        r@ == v@,
{
    let mut r: Vec<RelationshipRef> = Vec::new();
    let n = v.len();
    for i in 0..n
        invariant
            n == v@.len(),
            r@ == v@.take(i as int),
    {
        r.push(v[i].clone());
        assert(r@ =~= v@.take(i + 1));
    }
    assert(v@.take(n as int) =~= v@);
    r
}

fn walk_node_keys(from_key: &String, w: &Vec<RelationshipRef>) -> (nodes: Vec<String>)
    ensures
        nodes@.map_values(|s: String| s@) == walk_nodes(from_key@, w@),
{
    let mut nodes: Vec<String> = Vec::new();
    nodes.push(from_key.clone());
    let n = w.len();
    for i in 0..n
        invariant
            n == w@.len(),
            nodes@.map_values(|s: String| s@) == walk_nodes(from_key@, w@.take(i as int)),
    {
        let k = entity_key(&w[i].to);
        let ghost before = nodes@;
        nodes.push(k);
        proof {
            assert(w@.take(i + 1) =~= w@.take(i as int).push(w@[i as int]));
            lemma_walk_nodes_push(from_key@, w@.take(i as int), w@[i as int]);
            assert(nodes@.map_values(|s: String| s@) =~= before.map_values(|s: String| s@).push(
                k@,
            ));
        }
    }
    assert(w@.take(n as int) =~= w@);
    nodes
}

fn contains_node(nodes: &Vec<String>, k: &String) -> (r: bool)
    ensures
        r == nodes@.map_values(|s: String| s@).contains(k@),
{
    let ghost ks = nodes@.map_values(|s: String| s@);
    let n = nodes.len();
    for i in 0..n
        invariant
            n == nodes@.len(),
            ks == nodes@.map_values(|s: String| s@),
            forall|j: int| 0 <= j < i ==> ks[j] != k@,
    {
        if same_text(nodes[i].as_str(), k.as_str()) {
            assert(ks[i as int] == k@);
            return true;
        }
    }
    false
}

fn type_allowed_exec(q: &PathQuery, t: &String) -> (r: bool)
    ensures
        r == type_allowed(*q, t@),
{
    q.relationship_types.len() == 0 || list_contains_text(&q.relationship_types, t.as_str())
}

/// The walks of `frontier` and `found`, as sequences of steps.
spec fn walks(v: Seq<Vec<RelationshipRef>>) -> Seq<Seq<RelationshipRef>> {
    v.map_values(|x: Vec<RelationshipRef>| x@)
}

/// No two sorted relationships share a reference.
spec fn distinct_sorted(sorted: Seq<KeyedRelationship>) -> bool {
    forall|t: int, u: int|
        0 <= t < u < sorted.len() ==> (#[trigger] sorted[t]).rel.relationship != (#[trigger] sorted[u]).rel.relationship
}

/// Each sorted relationship carries its own key.
spec fn keyed_sorted(sorted: Seq<KeyedRelationship>) -> bool {
    forall|t: int| 0 <= t < sorted.len() ==> (#[trigger] sorted[t]).key@ == relationship_key_text(sorted[t].rel.relationship)
}

/// The sorted relationships come in strictly increasing key order.
spec fn strict_keys(sorted: Seq<KeyedRelationship>) -> bool {
    forall|u: int, v: int| 0 <= u < v < sorted.len() ==> chars_lt((#[trigger] sorted[u]).key@, (#[trigger] sorted[v]).key@)
}

/// The key of a walk: the keys of its steps.
pub open spec fn walk_key(w: Seq<RelationshipRef>) -> Seq<Option<Seq<char>>> {
    w.map_values(|r: RelationshipRef| Some(relationship_key_text(r)))
}

/// The order in which the search extends walks: shorter walks first, walks
/// of one length by their keys.
pub open spec fn search_lt(a: Seq<RelationshipRef>, b: Seq<RelationshipRef>) -> bool {
    a.len() < b.len() || (a.len() == b.len() && parts_lt(walk_key(a), walk_key(b)))
}

proof fn lemma_walk_key_push(w: Seq<RelationshipRef>, r: RelationshipRef)
    ensures
        walk_key(w.push(r)) == walk_key(w).push(Some(relationship_key_text(r))),
{
    assert(walk_key(w.push(r)) =~= walk_key(w).push(Some(relationship_key_text(r))));
}

/// Extending two keys of one length keeps their order; extending one key
/// orders by the extensions.
proof fn lemma_parts_lt_extend(
    a: Seq<Option<Seq<char>>>,
    b: Seq<Option<Seq<char>>>,
    x: Option<Seq<char>>,
    y: Option<Seq<char>>,
)
    requires
        a.len() == b.len(),
    ensures
        parts_lt(a, b) ==> parts_lt(a.push(x), b.push(y)),
        a == b ==> parts_lt(a.push(x), b.push(y)) == crate::tuple_key::opt_lt(x, y),
    decreases a.len(),
{
    if a.len() > 0 {
        assert(a.push(x).drop_first() =~= a.drop_first().push(x));
        assert(b.push(y).drop_first() =~= b.drop_first().push(y));
        assert(a.push(x)[0] == a[0]);
        assert(b.push(y)[0] == b[0]);
        lemma_parts_lt_extend(a.drop_first(), b.drop_first(), x, y);
    } else {
        assert(a.push(x).drop_first() =~= Seq::<Option<Seq<char>>>::empty());
        assert(b.push(y).drop_first() =~= Seq::<Option<Seq<char>>>::empty());
        assert(a.push(x)[0] == x);
        assert(b.push(y)[0] == y);
        assert(!parts_lt(a.push(x).drop_first(), b.push(y).drop_first()));
        crate::tuple_key::lemma_opt_lt_irreflexive(x);
    }
}

/// The search order is a strict order.
proof fn lemma_search_lt_strict(a: Seq<RelationshipRef>, b: Seq<RelationshipRef>, c: Seq<RelationshipRef>)
    ensures
        !search_lt(a, a),
        search_lt(a, b) ==> !search_lt(b, a),
        search_lt(a, b) && search_lt(b, c) ==> search_lt(a, c),
{
    crate::tuple_key::lemma_parts_lt_irreflexive(walk_key(a));
    crate::tuple_key::lemma_parts_lt_transitive(walk_key(a), walk_key(b), walk_key(a));
    crate::tuple_key::lemma_parts_lt_transitive(walk_key(a), walk_key(b), walk_key(c));
}

/// Expands one open walk by every sorted relationship that extends it.
fn expand_walk(
    q: &PathQuery,
    rels: Ghost<Seq<RelationshipInstance>>,
    sorted: &Vec<KeyedRelationship>,
    from_key: &String,
    target: &String,
    w: &Vec<RelationshipRef>,
    next: &mut Vec<Vec<RelationshipRef>>,
    found: &mut Vec<Vec<RelationshipRef>>,
)
    requires
        from_key@ == entity_key_text(q.from),
        target@ == entity_key_text(q.to),
        is_open_walk(*q, rels@, w@, w@.len() as nat),
        w@.len() < q.max_depth,
        forall|t: int| 0 <= t < sorted@.len() ==> stored_rel(rels@, (#[trigger] sorted@[t]).rel.relationship),
        forall|j: int| 0 <= j < rels@.len() ==> exists|t: int| 0 <= t < sorted@.len() && (#[trigger] sorted@[t]).rel == (#[trigger] rels@[j]),
        keyed_sorted(sorted@),
        forall|x: Seq<RelationshipRef>| walks(old(next)@).contains(x) ==> is_open_walk(*q, rels@, x, (w@.len() + 1) as nat),
        forall|x: Seq<RelationshipRef>| walks(old(found)@).contains(x) ==> is_path_answer(*q, rels@, x),
        distinct_sorted(sorted@) ==> walks(old(next)@).no_duplicates() && walks(old(found)@).no_duplicates(),
        distinct_sorted(sorted@) ==> forall|i: int| 0 <= i < old(next)@.len() ==> (#[trigger] walks(old(next)@)[i]).drop_last() != w@,
        distinct_sorted(sorted@) ==> forall|i: int| 0 <= i < old(found)@.len() && (#[trigger] walks(old(found)@)[i]).len() == w@.len() + 1
            ==> walks(old(found)@)[i].drop_last() != w@,
    ensures
        distinct_sorted(sorted@) ==> walks(final(next)@).no_duplicates() && walks(final(found)@).no_duplicates(),
        forall|i: int| old(next)@.len() <= i < final(next)@.len() ==> (#[trigger] walks(final(next)@)[i]).drop_last() == w@,
        forall|i: int| old(found)@.len() <= i < final(found)@.len() ==> (#[trigger] walks(final(found)@)[i]).drop_last() == w@,
        old(next)@.len() <= final(next)@.len(),
        old(found)@.len() <= final(found)@.len(),
        final(found)@.len() <= old(found)@.len() + sorted@.len(),
        walks(final(next)@).subrange(0, old(next)@.len() as int) == walks(old(next)@),
        walks(final(found)@).subrange(0, old(found)@.len() as int) == walks(old(found)@),
        forall|x: Seq<RelationshipRef>| walks(final(next)@).contains(x) ==> is_open_walk(*q, rels@, x, (w@.len() + 1) as nat),
        forall|x: Seq<RelationshipRef>| walks(final(found)@).contains(x) ==> is_path_answer(*q, rels@, x),
        forall|x: Seq<RelationshipRef>| #![trigger walks(final(found)@).contains(x)] walks(final(found)@).contains(x) && !walks(old(found)@).contains(x) ==> x.len() == w@.len() + 1,
        forall|r: RelationshipRef| is_open_walk(*q, rels@, #[trigger] w@.push(r), (w@.len() + 1) as nat) ==> walks(final(next)@).contains(w@.push(r)),
        forall|r: RelationshipRef| is_path_answer(*q, rels@, #[trigger] w@.push(r)) ==> walks(final(found)@).contains(w@.push(r)),
        strict_keys(sorted@) ==> forall|i: int, j: int| old(next)@.len() <= i < j < final(next)@.len() ==> chars_lt(
            relationship_key_text((#[trigger] walks(final(next)@)[i]).last()),
            relationship_key_text((#[trigger] walks(final(next)@)[j]).last()),
        ),
{
    let nodes = walk_node_keys(from_key, w);
    let ghost nv = walk_nodes(from_key@, w@);
    let current = &nodes[nodes.len() - 1];
    assert(current@ == nv.last());
    let n = sorted.len();
    for t in 0..n
        invariant
            n == sorted@.len(),
            from_key@ == entity_key_text(q.from),
            target@ == entity_key_text(q.to),
            is_open_walk(*q, rels@, w@, w@.len() as nat),
            w@.len() < q.max_depth,
            nodes@.map_values(|s: String| s@) == nv,
            nv == walk_nodes(from_key@, w@),
            current@ == nv.last(),
            keyed_sorted(sorted@),
            strict_keys(sorted@) ==> forall|i: int, j: int| old(next)@.len() <= i < j < next@.len() ==> chars_lt(
                relationship_key_text((#[trigger] walks(next@)[i]).last()),
                relationship_key_text((#[trigger] walks(next@)[j]).last()),
            ),
            forall|t: int| 0 <= t < sorted@.len() ==> stored_rel(rels@, (#[trigger] sorted@[t]).rel.relationship),
            old(next)@.len() <= next@.len(),
            old(found)@.len() <= found@.len(),
            found@.len() <= old(found)@.len() + t,
            walks(next@).subrange(0, old(next)@.len() as int) == walks(old(next)@),
            walks(found@).subrange(0, old(found)@.len() as int) == walks(old(found)@),
            forall|x: Seq<RelationshipRef>| walks(next@).contains(x) ==> is_open_walk(*q, rels@, x, (w@.len() + 1) as nat),
            forall|x: Seq<RelationshipRef>| walks(found@).contains(x) ==> is_path_answer(*q, rels@, x),
            forall|x: Seq<RelationshipRef>| #![trigger walks(found@).contains(x)] walks(found@).contains(x) && !walks(old(found)@).contains(x) ==> x.len() == w@.len() + 1,
            forall|u: int| 0 <= u < t ==> is_open_walk(*q, rels@, w@.push((#[trigger] sorted@[u]).rel.relationship), (w@.len() + 1) as nat) ==> walks(next@).contains(w@.push(sorted@[u].rel.relationship)),
            forall|u: int| 0 <= u < t ==> is_path_answer(*q, rels@, w@.push((#[trigger] sorted@[u]).rel.relationship)) ==> walks(found@).contains(w@.push(sorted@[u].rel.relationship)),
            distinct_sorted(sorted@) ==> walks(old(next)@).no_duplicates() && walks(old(found)@).no_duplicates(),
            distinct_sorted(sorted@) ==> forall|i: int| 0 <= i < old(next)@.len() ==> (#[trigger] walks(old(next)@)[i]).drop_last() != w@,
            distinct_sorted(sorted@) ==> forall|i: int| 0 <= i < old(found)@.len() && (#[trigger] walks(old(found)@)[i]).len() == w@.len() + 1
                ==> walks(old(found)@)[i].drop_last() != w@,
            distinct_sorted(sorted@) ==> walks(next@).no_duplicates() && walks(found@).no_duplicates(),
            forall|i: int| old(next)@.len() <= i < next@.len() ==> (#[trigger] walks(next@)[i]).drop_last() == w@
                && exists|u: int| 0 <= u < t && (#[trigger] sorted@[u]).rel.relationship == walks(next@)[i].last(),
            forall|i: int| old(found)@.len() <= i < found@.len() ==> (#[trigger] walks(found@)[i]).drop_last() == w@
                && exists|u: int| 0 <= u < t && (#[trigger] sorted@[u]).rel.relationship == walks(found@)[i].last(),
    {
        let r = &sorted[t].rel.relationship;
        let ghost w2 = w@.push(*r);
        proof {
            lemma_extend_walk(*q, rels@, w@, *r);
            lemma_walk_nodes_push(from_key@, w@, *r);
            assert(w2.drop_last() =~= w@);
            assert(w2.last() == sorted@[t as int].rel.relationship);
            assert forall|i: int| old(next)@.len() <= i < next@.len() implies (#[trigger] walks(next@)[i]).drop_last() == w@
                && exists|u: int| 0 <= u < t + 1 && (#[trigger] sorted@[u]).rel.relationship == walks(next@)[i].last() by {
                let u = choose|u: int| 0 <= u < t && (#[trigger] sorted@[u]).rel.relationship == walks(next@)[i].last();
            }
            assert forall|i: int| old(found)@.len() <= i < found@.len() implies (#[trigger] walks(found@)[i]).drop_last() == w@
                && exists|u: int| 0 <= u < t + 1 && (#[trigger] sorted@[u]).rel.relationship == walks(found@)[i].last() by {
                let u = choose|u: int| 0 <= u < t && (#[trigger] sorted@[u]).rel.relationship == walks(found@)[i].last();
            }
        }
        let rf = entity_key(&r.from);
        if same_text(rf.as_str(), current.as_str()) && type_allowed_exec(q, &r.relationship_type) {
            let rt = entity_key(&r.to);
            if !contains_node(&nodes, &rt) {
                let mut extended = clone_refs(w);
                extended.push(r.clone());
                assert(extended@ == w2);
                if same_text(rt.as_str(), target.as_str()) {
                    let ghost before = walks(found@);
                    found.push(extended);
                    proof {
                        assert(walks(found@) =~= before.push(w2));
                        assert(walks(found@)[before.len() as int] == w2);
                        assert(walk_nodes(entity_key_text(q.from), w2)[w2.len() as int] == entity_key_text(q.to));
                        assert(!is_open_walk(*q, rels@, w2, (w@.len() + 1) as nat));
                        assert forall|x: Seq<RelationshipRef>| walks(found@).contains(x) implies is_path_answer(*q, rels@, x) by {
                            let i = choose|i: int| 0 <= i < walks(found@).len() && walks(found@)[i] == x;
                            if i < before.len() {
                                assert(before[i] == x);
                                assert(before.contains(x));
                            }
                        }
                        assert forall|x: Seq<RelationshipRef>| #![trigger walks(found@).contains(x)] walks(found@).contains(x) && !walks(old(found)@).contains(x) implies x.len() == w@.len() + 1 by {
                            let i = choose|i: int| 0 <= i < walks(found@).len() && walks(found@)[i] == x;
                            if i < before.len() {
                                assert(before[i] == x);
                                assert(before.contains(x));
                            }
                        }
                        assert(walks(found@).subrange(0, old(found)@.len() as int) =~= before.subrange(0, old(found)@.len() as int));
                        assert forall|u: int| 0 <= u < t implies is_path_answer(*q, rels@, w@.push((#[trigger] sorted@[u]).rel.relationship)) ==> walks(found@).contains(w@.push(sorted@[u].rel.relationship)) by {
                            if is_path_answer(*q, rels@, w@.push(sorted@[u].rel.relationship)) {
                                let i = choose|i: int| 0 <= i < before.len() && before[i] == w@.push(sorted@[u].rel.relationship);
                                assert(walks(found@)[i] == before[i]);
                            }
                        }
                        assert forall|u: int| 0 <= u < t implies is_open_walk(*q, rels@, w@.push((#[trigger] sorted@[u]).rel.relationship), (w@.len() + 1) as nat) ==> walks(next@).contains(w@.push(sorted@[u].rel.relationship)) by {
                        }
                        assert forall|i: int| old(found)@.len() <= i < found@.len() implies (#[trigger] walks(found@)[i]).drop_last() == w@
                            && exists|u: int| 0 <= u < t + 1 && (#[trigger] sorted@[u]).rel.relationship == walks(found@)[i].last() by {
                            if i < before.len() {
                                assert(walks(found@)[i] == before[i]);
                                let u = choose|u: int| 0 <= u < t + 1 && (#[trigger] sorted@[u]).rel.relationship == before[i].last();
                            } else {
                                assert(walks(found@)[i] == w2);
                                assert(sorted@[t as int].rel.relationship == w2.last());
                            }
                        }
                        if distinct_sorted(sorted@) {
                            assert forall|i: int| 0 <= i < before.len() implies before[i] != w2 by {
                                if i < old(found)@.len() {
                                    assert(before[i] == before.subrange(0, old(found)@.len() as int)[i]);
                                    assert(before[i] == walks(old(found)@)[i]);
                                    if before[i].len() == w@.len() + 1 {
                                        assert(walks(old(found)@)[i].drop_last() != w@);
                                    }
                                } else {
                                    let u = choose|u: int| 0 <= u < t + 1 && (#[trigger] sorted@[u]).rel.relationship == before[i].last();
                                    assert(u != t);
                                    if u < t {
                                        assert(sorted@[u].rel.relationship != sorted@[t as int].rel.relationship);
                                    }
                                }
                            }
                            lemma_push_no_dup(before, w2);
                        }
                    }
                } else {
                    let ghost before = walks(next@);
                    next.push(extended);
                    proof {
                        assert(walks(next@) =~= before.push(w2));
                        assert(walks(next@)[before.len() as int] == w2);
                        assert(walks(next@).contains(w2));
                        assert(walk_nodes(entity_key_text(q.from), w2).last() != entity_key_text(q.to));
                        assert(!is_path_answer(*q, rels@, w2));
                        assert(is_open_walk(*q, rels@, w2, (w@.len() + 1) as nat)) by {
                            assert forall|k: int| 1 <= k <= w2.len() implies #[trigger] walk_nodes(entity_key_text(q.from), w2)[k] != entity_key_text(q.to) by {
                                if k < w2.len() {
                                    assert(walk_nodes(entity_key_text(q.from), w2)[k] == nv[k]);
                                }
                            }
                        }
                        assert forall|x: Seq<RelationshipRef>| walks(next@).contains(x) implies is_open_walk(*q, rels@, x, (w@.len() + 1) as nat) by {
                            let i = choose|i: int| 0 <= i < walks(next@).len() && walks(next@)[i] == x;
                            if i < before.len() {
                                assert(before[i] == x);
                                assert(before.contains(x));
                            }
                        }
                        assert(walks(next@).subrange(0, old(next)@.len() as int) =~= before.subrange(0, old(next)@.len() as int));
                        assert forall|u: int| 0 <= u < t implies is_open_walk(*q, rels@, w@.push((#[trigger] sorted@[u]).rel.relationship), (w@.len() + 1) as nat) ==> walks(next@).contains(w@.push(sorted@[u].rel.relationship)) by {
                            if is_open_walk(*q, rels@, w@.push(sorted@[u].rel.relationship), (w@.len() + 1) as nat) {
                                let i = choose|i: int| 0 <= i < before.len() && before[i] == w@.push(sorted@[u].rel.relationship);
                                assert(walks(next@)[i] == before[i]);
                            }
                        }
                        assert forall|i: int| old(next)@.len() <= i < next@.len() implies (#[trigger] walks(next@)[i]).drop_last() == w@
                            && exists|u: int| 0 <= u < t + 1 && (#[trigger] sorted@[u]).rel.relationship == walks(next@)[i].last() by {
                            if i < before.len() {
                                assert(walks(next@)[i] == before[i]);
                                let u = choose|u: int| 0 <= u < t + 1 && (#[trigger] sorted@[u]).rel.relationship == before[i].last();
                            } else {
                                assert(walks(next@)[i] == w2);
                                assert(sorted@[t as int].rel.relationship == w2.last());
                            }
                        }
                        if distinct_sorted(sorted@) {
                            assert forall|i: int| 0 <= i < before.len() implies before[i] != w2 by {
                                if i < old(next)@.len() {
                                    assert(before[i] == before.subrange(0, old(next)@.len() as int)[i]);
                                    assert(before[i] == walks(old(next)@)[i]);
                                    assert(walks(old(next)@)[i].drop_last() != w@);
                                } else {
                                    let u = choose|u: int| 0 <= u < t + 1 && (#[trigger] sorted@[u]).rel.relationship == before[i].last();
                                    assert(u != t);
                                    if u < t {
                                        assert(sorted@[u].rel.relationship != sorted@[t as int].rel.relationship);
                                    }
                                }
                            }
                            lemma_push_no_dup(before, w2);
                        }
                        if strict_keys(sorted@) {
                            assert forall|i: int, j: int| old(next)@.len() <= i < j < next@.len() implies chars_lt(
                                relationship_key_text((#[trigger] walks(next@)[i]).last()),
                                relationship_key_text((#[trigger] walks(next@)[j]).last()),
                            ) by {
                                assert(walks(next@)[i] == before[i]);
                                if j < before.len() {
                                    assert(walks(next@)[j] == before[j]);
                                } else {
                                    let u = choose|u: int| 0 <= u < t && (#[trigger] sorted@[u]).rel.relationship == before[i].last();
                                    assert(walks(next@)[j] == w2);
                                    assert(chars_lt(sorted@[u].key@, sorted@[t as int].key@));
                                }
                            }
                        }
                    }
                }
            }
        }
    }
    proof {
        assert forall|r: RelationshipRef| is_open_walk(*q, rels@, #[trigger] w@.push(r), (w@.len() + 1) as nat) implies walks(next@).contains(w@.push(r)) by {
            lemma_extend_walk(*q, rels@, w@, r);
            let j = choose|j: int| 0 <= j < rels@.len() && (#[trigger] rels@[j]).relationship == r;
            let t = choose|t: int| 0 <= t < sorted@.len() && (#[trigger] sorted@[t]).rel == rels@[j];
            assert(sorted@[t].rel.relationship == r);
        }
        assert forall|r: RelationshipRef| is_path_answer(*q, rels@, #[trigger] w@.push(r)) implies walks(found@).contains(w@.push(r)) by {
            lemma_extend_walk(*q, rels@, w@, r);
            let j = choose|j: int| 0 <= j < rels@.len() && (#[trigger] rels@[j]).relationship == r;
            let t = choose|t: int| 0 <= t < sorted@.len() && (#[trigger] sorted@[t]).rel == rels@[j];
            assert(sorted@[t].rel.relationship == r);
        }
    }
}

/// A path together with the keys of its steps, ordered by those keys.
pub struct KeyedPath {
    pub key: TupleKey,
    pub path: OntologyPath,
}

impl SortKey for KeyedPath {
    open spec fn key_lt(self, other: Self) -> bool {
        parts_lt(self.key.parts_view(), other.key.parts_view())
    }

    fn key_less(&self, other: &Self) -> (r: bool) {
        self.key.key_less(&other.key)
    }

    proof fn lemma_key_lt_irreflexive(a: Self) {
        crate::tuple_key::lemma_parts_lt_irreflexive(a.key.parts_view());
    }

    proof fn lemma_key_lt_transitive(a: Self, b: Self, c: Self) {
        crate::tuple_key::lemma_parts_lt_transitive(
            a.key.parts_view(),
            b.key.parts_view(),
            c.key.parts_view(),
        );
    }

    proof fn lemma_key_lt_negative_transitive(a: Self, b: Self, c: Self) {
        crate::tuple_key::lemma_parts_lt_negative_transitive(
            a.key.parts_view(),
            b.key.parts_view(),
            c.key.parts_view(),
        );
    }
}

/// An answer's prefix without its last step is an open walk.
proof fn lemma_answer_prefix_open(q: PathQuery, rels: Seq<RelationshipInstance>, w: Seq<RelationshipRef>)
    requires
        is_path_answer(q, rels, w),
    ensures
        is_open_walk(q, rels, w.drop_last(), (w.len() - 1) as nat),
        w == w.drop_last().push(w.last()),
{
    lemma_walk_prefix(q, rels, w);
    let start = entity_key_text(q.from);
    let p = w.drop_last();
    let np = walk_nodes(start, p);
    let nw = walk_nodes(start, w);
    assert forall|k: int| 1 <= k <= p.len() implies #[trigger] walk_nodes(start, p)[k]
        != entity_key_text(q.to) by {
        assert(np[k] == nw[k]);
        assert(nw[k] != nw[w.len() as int]);
    }
}

/// An open walk's prefix without its last step is an open walk.
proof fn lemma_open_prefix_open(q: PathQuery, rels: Seq<RelationshipInstance>, w: Seq<RelationshipRef>, len: nat)
    requires
        is_open_walk(q, rels, w, len),
        len > 0,
    ensures
        is_open_walk(q, rels, w.drop_last(), (len - 1) as nat),
        w == w.drop_last().push(w.last()),
{
    lemma_walk_prefix(q, rels, w);
    let start = entity_key_text(q.from);
    let p = w.drop_last();
    let np = walk_nodes(start, p);
    let nw = walk_nodes(start, w);
    assert forall|k: int| 1 <= k <= p.len() implies #[trigger] walk_nodes(start, p)[k]
        != entity_key_text(q.to) by {
        assert(np[k] == nw[k]);
    }
}

fn path_from_walk(q: &PathQuery, w: &Vec<RelationshipRef>) -> (p: OntologyPath)
    ensures
        p.start == q.from,
        p.end == q.to,
        steps_of(p) == w@,
        forall|k: int| 0 <= k < p.steps@.len() ==> (#[trigger] p.steps@[k]).direction
            == RelationshipDirection::Outgoing,
{
    let mut steps: Vec<OntologyPathStep> = Vec::new();
    let n = w.len();
    for i in 0..n
        invariant
            n == w@.len(),
            steps@.len() == i,
            forall|k: int| 0 <= k < i ==> (#[trigger] steps@[k]).relationship == w@[k]
                && steps@[k].direction == RelationshipDirection::Outgoing,
    {
        steps.push(
            OntologyPathStep {
                relationship: w[i].clone(),
                direction: RelationshipDirection::Outgoing,
            },
        );
    }
    let p = OntologyPath { start: q.from.clone(), end: q.to.clone(), steps };
    assert(steps_of(p) =~= w@);
    p
}

/// The key of a path is the key of the walk it takes.
proof fn lemma_path_parts_walk_key(p: OntologyPath)
    ensures
        path_parts(p) == walk_key(steps_of(p)),
{
    assert(path_parts(p) =~= walk_key(steps_of(p)));
}

/// The found walks as paths from the query's start to its target, in the
/// order of their steps' keys.
fn paths_in_key_order(q: &PathQuery, rels: Ghost<Seq<RelationshipInstance>>, found: &Vec<Vec<RelationshipRef>>) -> (out: Vec<OntologyPath>)
    requires
        forall|x: Seq<RelationshipRef>| walks(found@).contains(x) ==> is_path_answer(*q, rels@, x),
    ensures
        out@.len() == found@.len(),
        exists|order: Seq<usize>|
            #[trigger] is_permutation(order, found@.len()) && forall|t: int|
                0 <= t < out@.len() ==> steps_of(#[trigger] out@[t]) == walks(found@)[order[t] as int],
        forall|i: int| 0 <= i < out@.len() ==> {
            &&& (#[trigger] out@[i]).start == q.from
            &&& out@[i].end == q.to
            &&& is_path_answer(*q, rels@, steps_of(out@[i]))
            &&& walks(found@).contains(steps_of(out@[i]))
            &&& forall|k: int| 0 <= k < out@[i].steps@.len() ==> (#[trigger] out@[i].steps@[k]).direction == RelationshipDirection::Outgoing
        },
        forall|i: int, j: int| 0 <= i < j < out@.len() ==> !parts_lt(
            path_parts(#[trigger] out@[j]),
            path_parts(#[trigger] out@[i]),
        ),
        forall|w: Seq<RelationshipRef>| walks(found@).contains(w) ==> exists|i: int|
            0 <= i < out@.len() && steps_of(#[trigger] out@[i]) == w,
        walks(found@).no_duplicates() ==> distinct_paths(out@),
{
    let nf = found.len();
    let mut kp: Vec<KeyedPath> = Vec::new();
    for i in 0..nf
        invariant
            nf == found@.len(),
            kp@.len() == i,
            forall|j: int| 0 <= j < i ==> {
                &&& (#[trigger] kp@[j]).key.parts_view() == walk_key(found@[j]@)
            },
    {
        let p = path_from_walk(q, &found[i]);
        let k = path_key(&p);
        proof {
            lemma_path_parts_walk_key(p);
        }
        kp.push(KeyedPath { key: k, path: p });
    }
    let ghost kpv = kp@;
    let order = sorted_order(kp);
    let mut out: Vec<OntologyPath> = Vec::new();
    for t in 0..nf
        invariant
            nf == found@.len(),
            is_permutation(order@, nf as nat),
            out@.len() == t,
            forall|j: int| 0 <= j < t ==> {
                &&& (#[trigger] out@[j]).start == q.from
                &&& out@[j].end == q.to
                &&& steps_of(out@[j]) == found@[order@[j] as int]@
                &&& forall|k: int| 0 <= k < out@[j].steps@.len() ==> (#[trigger] out@[j].steps@[k]).direction == RelationshipDirection::Outgoing
            },
    {
        let p = path_from_walk(q, &found[order[t]]);
        out.push(p);
    }
    proof {
        assert forall|t: int| 0 <= t < out@.len() implies steps_of(#[trigger] out@[t]) == walks(found@)[order@[t] as int] by {
            assert(walks(found@)[order@[t] as int] == found@[order@[t] as int]@);
        }
        assert(is_permutation(order@, found@.len()));
        assert forall|i: int| 0 <= i < out@.len() implies {
            &&& (#[trigger] out@[i]).start == q.from
            &&& out@[i].end == q.to
            &&& is_path_answer(*q, rels@, steps_of(out@[i]))
            &&& walks(found@).contains(steps_of(out@[i]))
            &&& forall|k: int| 0 <= k < out@[i].steps@.len() ==> (#[trigger] out@[i].steps@[k]).direction == RelationshipDirection::Outgoing
        } by {
            assert(walks(found@)[order@[i] as int] == found@[order@[i] as int]@);
            assert(walks(found@).contains(found@[order@[i] as int]@));
        }
        assert forall|i: int, j: int| 0 <= i < j < out@.len() implies !parts_lt(
            path_parts(#[trigger] out@[j]),
            path_parts(#[trigger] out@[i]),
        ) by {
            lemma_path_parts_walk_key(out@[i]);
            lemma_path_parts_walk_key(out@[j]);
            assert(!kpv[order@[j] as int].key_lt(kpv[order@[i] as int]));
        }
        assert forall|w: Seq<RelationshipRef>| walks(found@).contains(w) implies exists|i: int|
            0 <= i < out@.len() && steps_of(#[trigger] out@[i]) == w by {
            let j = choose|j: int| 0 <= j < walks(found@).len() && walks(found@)[j] == w;
            crate::sort::lemma_permutation_onto(order@, nf as nat, j);
            let t = choose|t: int| 0 <= t < nf && order@[t] as int == j;
            assert(steps_of(out@[t]) == w);
        }
        if walks(found@).no_duplicates() {
            assert forall|i: int, j: int| 0 <= i < j < out@.len() implies steps_of(#[trigger] out@[i]) != steps_of(#[trigger] out@[j]) by {
                assert(order@[i] != order@[j]);
                assert(walks(found@)[order@[i] as int] == found@[order@[i] as int]@);
                assert(walks(found@)[order@[j] as int] == found@[order@[j] as int]@);
            }
        }
    }
    out
}

/// Children of walks taken in key order, each walk's children by the keys of
/// their last steps, come in key order.
proof fn lemma_children_in_key_order(
    before: Seq<Seq<RelationshipRef>>,
    after: Seq<Seq<RelationshipRef>>,
    frontier: Seq<Seq<RelationshipRef>>,
    a: int,
    depth: nat,
)
    requires
        walks_in_key_order(frontier),
        0 <= a < frontier.len(),
        forall|x: Seq<RelationshipRef>| #[trigger] frontier.contains(x) ==> x.len() == depth,
        walks_in_key_order(before),
        before.len() <= after.len(),
        after.subrange(0, before.len() as int) == before,
        forall|x: Seq<RelationshipRef>| #[trigger] after.contains(x) ==> x.len() == depth + 1,
        forall|i: int| 0 <= i < before.len() ==> exists|aa: int|
            0 <= aa < a && (#[trigger] before[i]).drop_last() == #[trigger] frontier[aa],
        forall|i: int| before.len() <= i < after.len() ==> (#[trigger] after[i]).drop_last() == frontier[a],
        forall|i: int, j: int| before.len() <= i < j < after.len() ==> chars_lt(
            relationship_key_text((#[trigger] after[i]).last()),
            relationship_key_text((#[trigger] after[j]).last()),
        ),
    ensures
        walks_in_key_order(after),
{
    assert forall|i: int, j: int| 0 <= i < j < after.len() implies parts_lt(walk_key(#[trigger] after[i]), walk_key(#[trigger] after[j])) by {
        assert(after.contains(after[i]) && after.contains(after[j]));
        let pi = after[i].drop_last();
        let pj = after[j].drop_last();
        assert(after[i] =~= pi.push(after[i].last()));
        assert(after[j] =~= pj.push(after[j].last()));
        lemma_walk_key_push(pi, after[i].last());
        lemma_walk_key_push(pj, after[j].last());
        if j < before.len() {
            assert(after[i] == after.subrange(0, before.len() as int)[i]);
            assert(after[j] == after.subrange(0, before.len() as int)[j]);
        } else if i < before.len() {
            assert(after[i] == after.subrange(0, before.len() as int)[i]);
            let aa = choose|aa: int| 0 <= aa < a && (#[trigger] before[i]).drop_last() == #[trigger] frontier[aa];
            assert(frontier.contains(frontier[aa]) && frontier.contains(frontier[a]));
            lemma_parts_lt_extend(walk_key(pi), walk_key(pj), Some(relationship_key_text(after[i].last())), Some(relationship_key_text(after[j].last())));
        } else {
            lemma_parts_lt_extend(walk_key(pi), walk_key(pj), Some(relationship_key_text(after[i].last())), Some(relationship_key_text(after[j].last())));
        }
    }
}

/// Appending answers of the walk at position `a` keeps the answers listed
/// in search order.
proof fn lemma_answers_in_search_order(
    before: Seq<Seq<RelationshipRef>>,
    after: Seq<Seq<RelationshipRef>>,
    frontier: Seq<Seq<RelationshipRef>>,
    a: int,
    depth: nat,
    len0: int,
)
    requires
        walks_in_key_order(frontier),
        0 <= a < frontier.len(),
        forall|x: Seq<RelationshipRef>| #[trigger] frontier.contains(x) ==> x.len() == depth,
        found_in_search_order(before),
        0 <= len0 <= before.len() <= after.len(),
        after.subrange(0, before.len() as int) == before,
        forall|x: Seq<RelationshipRef>| #[trigger] after.contains(x) ==> x.len() >= 1,
        forall|i: int| 0 <= i < len0 ==> (#[trigger] before[i]).len() <= depth,
        forall|i: int| len0 <= i < before.len() ==> exists|aa: int|
            0 <= aa < a && (#[trigger] before[i]).drop_last() == #[trigger] frontier[aa],
        forall|i: int| before.len() <= i < after.len() ==> (#[trigger] after[i]).drop_last() == frontier[a],
    ensures
        found_in_search_order(after),
{
    assert forall|i: int| 0 <= i < before.len() implies #[trigger] after[i] == before[i] by {
        assert(after[i] == after.subrange(0, before.len() as int)[i]);
    }
    assert(frontier.contains(frontier[a]));
    assert forall|x: int, y: int| 0 <= x < y < after.len() implies !search_lt((#[trigger] after[y]).drop_last(), (#[trigger] after[x]).drop_last()) by {
        lemma_search_lt_strict(after[y].drop_last(), after[x].drop_last(), after[y].drop_last());
        if y < before.len() {
            assert(after[x] == before[x] && after[y] == before[y]);
        } else if x < before.len() {
            assert(after.contains(after[x]));
            if x < len0 {
                assert(before[x].len() <= depth);
            } else {
                let aa = choose|aa: int| 0 <= aa < a && (#[trigger] before[x]).drop_last() == #[trigger] frontier[aa];
                assert(frontier.contains(frontier[aa]));
            }
        }
    }
}

/// Appending the answers of one walk when fewer than `limit` answers are
/// listed extends no walk past `limit`.
proof fn lemma_answers_start_below(
    before: Seq<Seq<RelationshipRef>>,
    after: Seq<Seq<RelationshipRef>>,
    parent: Seq<RelationshipRef>,
    limit: usize,
)
    requires
        same_walk_past_limit(before, limit),
        before.len() < limit,
        before.len() <= after.len(),
        after.subrange(0, before.len() as int) == before,
        forall|i: int| before.len() <= i < after.len() ==> (#[trigger] after[i]).drop_last() == parent,
    ensures
        same_walk_past_limit(after, limit),
{
    if after.len() > limit {
        assert(after[limit - 1].drop_last() == parent);
    }
}

/// The relationships have pairwise distinct keys.
pub open spec fn distinct_rel_keys(rels: Seq<RelationshipInstance>) -> bool {
    forall|i: int, j: int|
        0 <= i < j < rels.len() ==> relationship_key_text((#[trigger] rels[i]).relationship)
            != relationship_key_text((#[trigger] rels[j]).relationship)
}

/// Walks in strictly increasing key order.
spec fn walks_in_key_order(v: Seq<Seq<RelationshipRef>>) -> bool {
    forall|i: int, j: int| 0 <= i < j < v.len() ==> parts_lt(walk_key(#[trigger] v[i]), walk_key(#[trigger] v[j]))
}

/// Answers listed in the search order of the walks they extend.
pub open spec fn found_in_search_order(fw: Seq<Seq<RelationshipRef>>) -> bool {
    forall|a: int, b: int|
        0 <= a < b < fw.len() ==> !search_lt((#[trigger] fw[b]).drop_last(), (#[trigger] fw[a]).drop_last())
}

/// From position `limit` on, every listed answer extends the same walk as
/// the answer at position `limit - 1`: no walk was extended once `limit`
/// answers were listed.
pub open spec fn same_walk_past_limit(fw: Seq<Seq<RelationshipRef>>, limit: usize) -> bool {
    &&& limit == 0 ==> fw.len() == 0
    &&& forall|i: int| limit <= i < fw.len() ==> (#[trigger] fw[i]).drop_last() == fw[limit - 1].drop_last()
}

/// `paths` are, in another order, the list `fw` of answers in the order the
/// search found them: by the walks they extend, in search order, with no
/// walk extended once `limit` answers were listed.
pub open spec fn found_list(paths: Seq<OntologyPath>, fw: Seq<Seq<RelationshipRef>>, order: Seq<usize>, limit: usize) -> bool {
    &&& is_permutation(order, paths.len())
    &&& fw.len() == paths.len()
    &&& forall|t: int| 0 <= t < paths.len() ==> steps_of(#[trigger] paths[t]) == fw[order[t] as int]
    &&& found_in_search_order(fw)
    &&& same_walk_past_limit(fw, limit)
}

/// Where the search stops: walks are extended in search order (shorter
/// first, then by key), and the search stops before extending a walk once
/// `limit` answers are known. So every answer that extends a walk no later in
/// that order than a returned path's walk is returned, and the returned
/// paths, listed in the order found, have every extended walk's answers start
/// before position `limit`.
pub open spec fn cut_in_search_order(paths: Seq<OntologyPath>, q: PathQuery, rels: Seq<RelationshipInstance>) -> bool {
    &&& forall|w: Seq<RelationshipRef>, i: int|
        #![trigger is_path_answer(q, rels, w), paths[i]]
        is_path_answer(q, rels, w) && 0 <= i < paths.len() && (search_lt(w.drop_last(), steps_of(paths[i]).drop_last())
            || w.drop_last() == steps_of(paths[i]).drop_last()) ==> exists|k: int|
            0 <= k < paths.len() && steps_of(#[trigger] paths[k]) == w
    &&& exists|fw: Seq<Seq<RelationshipRef>>, order: Seq<usize>| #[trigger] found_list(paths, fw, order, q.limit)
}

/// What the search leaves at its end gives the cut in search order.
#[verifier::spinoff_prover]
proof fn lemma_cut_in_search_order(
    q: PathQuery,
    rv: Seq<RelationshipInstance>,
    found: Seq<Seq<RelationshipRef>>,
    out: Seq<OntologyPath>,
    depth: nat,
    stopped: bool,
    cut_level: Seq<Seq<RelationshipRef>>,
    cut_at: int,
)
    requires
        out.len() == found.len(),
        exists|order: Seq<usize>|
            #[trigger] is_permutation(order, found.len()) && forall|t: int|
                0 <= t < out.len() ==> steps_of(#[trigger] out[t]) == found[order[t] as int],
        forall|i: int| 0 <= i < out.len() ==> found.contains(steps_of(#[trigger] out[i])),
        forall|w: Seq<RelationshipRef>| found.contains(w) ==> exists|i: int| 0 <= i < out.len() && steps_of(#[trigger] out[i]) == w,
        found_in_search_order(found),
        same_walk_past_limit(found, q.limit),
        !stopped ==> depth >= q.max_depth,
        forall|x: Seq<RelationshipRef>| #[trigger] found.contains(x) ==> x.len() <= depth && is_path_answer(q, rv, x),
        forall|x: Seq<RelationshipRef>|
            is_path_answer(q, rv, x) && x.len() <= (if stopped { depth - 1 } else { depth as int }) ==> found.contains(x),
        stopped ==> 1 <= depth,
        stopped ==> forall|x: Seq<RelationshipRef>| is_open_walk(q, rv, x, (depth - 1) as nat) ==> cut_level.contains(x),
        stopped ==> walks_in_key_order(cut_level),
        stopped ==> forall|aa: int, r: RelationshipRef|
            0 <= aa < cut_at && is_path_answer(q, rv, #[trigger] cut_level[aa].push(r)) ==> found.contains(cut_level[aa].push(r)),
        stopped ==> forall|i: int| 0 <= i < found.len() ==> (#[trigger] found[i]).len() < depth
            || exists|aa: int| 0 <= aa < cut_at && found[i].drop_last() == cut_level[aa],
    ensures
        cut_in_search_order(out, q, rv),
{
    let order = choose|order: Seq<usize>|
        #[trigger] is_permutation(order, found.len()) && forall|t: int|
            0 <= t < out.len() ==> steps_of(#[trigger] out[t]) == found[order[t] as int];
    assert(found_list(out, found, order, q.limit));
    assert forall|w: Seq<RelationshipRef>, i: int|
        #![trigger is_path_answer(q, rv, w), out[i]]
        is_path_answer(q, rv, w) && 0 <= i < out.len() && (search_lt(w.drop_last(), steps_of(out[i]).drop_last())
            || w.drop_last() == steps_of(out[i]).drop_last()) implies exists|k: int|
            0 <= k < out.len() && steps_of(#[trigger] out[k]) == w by {
        let y = steps_of(out[i]);
        assert(found.contains(y));
        lemma_answer_prefix_open(q, rv, w);
        let pw = w.drop_last();
        if stopped && w.len() > depth - 1 {
            let iy = choose|iy: int| 0 <= iy < found.len() && found[iy] == y;
            assert(y.len() <= depth);
            if y.len() < depth {
                assert(pw.len() <= y.len() - 1);
            } else {
                let aa = choose|aa: int| 0 <= aa < cut_at && found[iy].drop_last() == cut_level[aa];
                assert(pw.len() == depth - 1);
                assert(cut_level.contains(pw));
                let k = choose|k: int| 0 <= k < cut_level.len() && cut_level[k] == pw;
                if pw == cut_level[aa] {
                    assert(cut_level[aa].push(w.last()) == w);
                } else {
                    assert(parts_lt(walk_key(pw), walk_key(cut_level[aa])));
                    if k > aa {
                        assert(parts_lt(walk_key(cut_level[aa]), walk_key(cut_level[k])));
                        crate::tuple_key::lemma_parts_lt_transitive(walk_key(pw), walk_key(cut_level[aa]), walk_key(pw));
                        crate::tuple_key::lemma_parts_lt_irreflexive(walk_key(pw));
                    }
                    assert(k != aa);
                    assert(cut_level[k].push(w.last()) == w);
                }
            }
        }
        assert(found.contains(w));
    }
}

/// Paths from `q.from` to `q.to` over `rels`, breadth first: walks are
/// extended one step per round, by relationships in key order, until the
/// depth bound is reached or, before a walk is extended, `limit` paths are known.
#[verifier::rlimit(100)]
#[verifier::spinoff_prover]
pub fn find_paths_in(rels: &Vec<RelationshipInstance>, q: &PathQuery) -> (out: Vec<OntologyPath>)
    ensures
        answers_path_query(out@, *q, rels@),
        distinct_refs(rels@) ==> distinct_paths(out@),
        q.limit == 0 ==> out@.len() == 0,
        out@.len() == 0 || out@.len() < q.limit + rels@.len(),
        distinct_rel_keys(rels@) ==> cut_in_search_order(out@, *q, rels@),
{
    let ghost rv = rels@;
    let nr = rels.len();
    let mut keyed: Vec<KeyedRelationship> = Vec::new();
    for i in 0..nr
        invariant
            nr == rv.len(),
            rv == rels@,
            keyed@.len() == i,
            forall|j: int| 0 <= j < i ==> (#[trigger] keyed@[j]).rel == rv[j]
                && keyed@[j].key@ == relationship_key_text(rv[j].relationship),
    {
        keyed.push(
            KeyedRelationship {
                key: relationship_key(&rels[i].relationship),
                rel: rels[i].clone(),
            },
        );
    }
    let ghost kv = keyed@;
    let sorted = sort_by_key(keyed);
    proof {
        assert forall|t: int| 0 <= t < sorted@.len() implies stored_rel(
            rv,
            (#[trigger] sorted@[t]).rel.relationship,
        ) by {
            assert(sorted@.to_multiset().count(sorted@[t]) > 0);
            assert(kv.contains(sorted@[t]));
            let j = choose|j: int| 0 <= j < kv.len() && kv[j] == sorted@[t];
            assert(rv[j].relationship == sorted@[t].rel.relationship);
        }
        assert(keyed_sorted(sorted@)) by {
            assert forall|t: int| 0 <= t < sorted@.len() implies (#[trigger] sorted@[t]).key@ == relationship_key_text(sorted@[t].rel.relationship) by {
                assert(sorted@.to_multiset().count(sorted@[t]) > 0);
                assert(kv.contains(sorted@[t]));
            }
        }
        assert forall|j: int| 0 <= j < rv.len() implies exists|t: int|
            0 <= t < sorted@.len() && (#[trigger] sorted@[t]).rel == (#[trigger] rv[j]) by {
            assert(kv[j].rel == rv[j]);
            assert(kv.to_multiset().count(kv[j]) > 0);
            assert(sorted@.contains(kv[j]));
            let t = choose|t: int| 0 <= t < sorted@.len() && sorted@[t] == kv[j];
            assert(sorted@[t].rel == rv[j]);
        }
    }
    proof {
        if distinct_refs(rv) {
            assert forall|i: int, j: int| 0 <= i < kv.len() && 0 <= j < kv.len() && i != j implies kv[i] != kv[j] by {
                if i < j {
                    assert(rv[i].relationship != rv[j].relationship);
                } else {
                    assert(rv[j].relationship != rv[i].relationship);
                }
            }
            kv.lemma_multiset_has_no_duplicates();
            assert forall|x: KeyedRelationship| sorted@.to_multiset().contains(x) implies sorted@.to_multiset().count(x) == 1 by {
                assert(kv.to_multiset().contains(x));
            }
            sorted@.lemma_multiset_has_no_duplicates_conv();
            assert forall|t: int, u: int| 0 <= t < u < sorted@.len() implies (#[trigger] sorted@[t]).rel.relationship
                != (#[trigger] sorted@[u]).rel.relationship by {
                assert(sorted@.to_multiset().count(sorted@[t]) > 0);
                assert(sorted@.to_multiset().count(sorted@[u]) > 0);
                assert(kv.contains(sorted@[t]));
                assert(kv.contains(sorted@[u]));
                let jt = choose|jt: int| 0 <= jt < kv.len() && kv[jt] == sorted@[t];
                let ju = choose|ju: int| 0 <= ju < kv.len() && kv[ju] == sorted@[u];
                assert(jt != ju);
                if jt < ju {
                    assert(rv[jt].relationship != rv[ju].relationship);
                } else {
                    assert(rv[ju].relationship != rv[jt].relationship);
                }
            }
            assert(distinct_sorted(sorted@));
        }
        if distinct_rel_keys(rv) {
            assert forall|i: int, j: int| 0 <= i < kv.len() && 0 <= j < kv.len() && i != j implies kv[i] != kv[j] by {
                if i < j {
                    assert(relationship_key_text(rv[i].relationship) != relationship_key_text(rv[j].relationship));
                } else {
                    assert(relationship_key_text(rv[j].relationship) != relationship_key_text(rv[i].relationship));
                }
            }
            kv.lemma_multiset_has_no_duplicates();
            assert forall|x: KeyedRelationship| sorted@.to_multiset().contains(x) implies sorted@.to_multiset().count(x) == 1 by {
                assert(kv.to_multiset().contains(x));
            }
            sorted@.lemma_multiset_has_no_duplicates_conv();
            assert forall|u: int, v: int| 0 <= u < v < sorted@.len() implies chars_lt((#[trigger] sorted@[u]).key@, (#[trigger] sorted@[v]).key@) by {
                assert(sorted@.to_multiset().count(sorted@[u]) > 0);
                assert(sorted@.to_multiset().count(sorted@[v]) > 0);
                assert(kv.contains(sorted@[u]));
                assert(kv.contains(sorted@[v]));
                let ju = choose|ju: int| 0 <= ju < kv.len() && kv[ju] == sorted@[u];
                let jv = choose|jv: int| 0 <= jv < kv.len() && kv[jv] == sorted@[v];
                assert(ju != jv);
                if ju < jv {
                    assert(relationship_key_text(rv[ju].relationship) != relationship_key_text(rv[jv].relationship));
                } else {
                    assert(relationship_key_text(rv[jv].relationship) != relationship_key_text(rv[ju].relationship));
                }
                assert(!sorted@[v].key_lt(sorted@[u]));
                crate::text::lemma_chars_lt_total(sorted@[u].key@, sorted@[v].key@);
            }
            assert forall|i: int, j: int| 0 <= i < j < rv.len() implies (#[trigger] rv[i]).relationship != (#[trigger] rv[j]).relationship by {
                assert(relationship_key_text(rv[i].relationship) != relationship_key_text(rv[j].relationship));
            }
            assert(distinct_refs(rv));
        }
    }
    let from_key = entity_key(&q.from);
    let target = entity_key(&q.to);
    let mut frontier: Vec<Vec<RelationshipRef>> = Vec::new();
    frontier.push(Vec::new());
    let mut found: Vec<Vec<RelationshipRef>> = Vec::new();
    let mut depth: u8 = 0;
    let mut stopped = false;
    let ghost mut cut_level: Seq<Seq<RelationshipRef>> = Seq::empty();
    let ghost mut cut_at: int = 0;
    proof {
        let e = Seq::<RelationshipRef>::empty();
        assert(walks(frontier@) =~= seq![e]);
        assert(walk_nodes(entity_key_text(q.from), e) =~= seq![entity_key_text(q.from)]);
        assert(is_open_walk(*q, rv, e, 0));
        assert forall|x: Seq<RelationshipRef>| is_open_walk(*q, rv, x, 0) implies walks(
            frontier@,
        ).contains(x) by {
            assert(x =~= e);
            assert(walks(frontier@)[0] == e);
        }
        assert(walks(found@) =~= Seq::<Seq<RelationshipRef>>::empty());
    }
    while depth < q.max_depth && !stopped
        invariant
            depth <= q.max_depth,
            rv == rels@,
            from_key@ == entity_key_text(q.from),
            target@ == entity_key_text(q.to),
            forall|t: int| 0 <= t < sorted@.len() ==> stored_rel(
                rv,
                (#[trigger] sorted@[t]).rel.relationship,
            ),
            forall|j: int| 0 <= j < rv.len() ==> exists|t: int|
                0 <= t < sorted@.len() && (#[trigger] sorted@[t]).rel == (#[trigger] rv[j]),
            forall|x: Seq<RelationshipRef>| walks(frontier@).contains(x) ==> is_open_walk(
                *q,
                rv,
                x,
                depth as nat,
            ),
            !stopped ==> forall|x: Seq<RelationshipRef>| is_open_walk(*q, rv, x, depth as nat)
                ==> walks(frontier@).contains(x),
            forall|x: Seq<RelationshipRef>| walks(found@).contains(x) ==> is_path_answer(*q, rv, x),
            forall|x: Seq<RelationshipRef>| #[trigger] walks(found@).contains(x) ==> x.len() <= depth,
            forall|x: Seq<RelationshipRef>|
                is_path_answer(*q, rv, x) && x.len() <= (if stopped {
                    depth - 1
                } else {
                    depth as int
                }) ==> walks(found@).contains(x),
            stopped ==> found@.len() >= q.limit,
            stopped ==> depth >= 1,
            distinct_refs(rv) ==> distinct_sorted(sorted@),
            distinct_sorted(sorted@) ==> walks(frontier@).no_duplicates() && walks(found@).no_duplicates(),
            sorted@.len() == rv.len(),
            keyed_sorted(sorted@),
            distinct_rel_keys(rv) ==> strict_keys(sorted@),
            distinct_rel_keys(rv) ==> walks_in_key_order(walks(frontier@)),
            distinct_rel_keys(rv) ==> found_in_search_order(walks(found@)),
            same_walk_past_limit(walks(found@), q.limit),
            stopped ==> 0 <= cut_at < cut_level.len(),
            stopped ==> forall|x: Seq<RelationshipRef>| is_open_walk(*q, rv, x, (depth - 1) as nat) ==> cut_level.contains(x),
            stopped ==> forall|x: Seq<RelationshipRef>| #[trigger] cut_level.contains(x) ==> x.len() == depth - 1,
            stopped && distinct_rel_keys(rv) ==> walks_in_key_order(cut_level),
            stopped ==> forall|aa: int, r: RelationshipRef|
                0 <= aa < cut_at && is_path_answer(*q, rv, #[trigger] cut_level[aa].push(r)) ==> walks(found@).contains(cut_level[aa].push(r)),
            stopped ==> forall|i: int| 0 <= i < found@.len() ==> (#[trigger] walks(found@)[i]).len() < depth
                || exists|aa: int| 0 <= aa < cut_at && walks(found@)[i].drop_last() == cut_level[aa],
            q.limit == 0 ==> found@.len() == 0,
            found@.len() == 0 || found@.len() < q.limit + sorted@.len(),
        decreases q.max_depth - depth,
    {
        let mut next: Vec<Vec<RelationshipRef>> = Vec::new();
        let ghost found0 = walks(found@);
        let ghost len0 = found@.len();
        let mut a: usize = 0;
        proof {
            assert(walks(next@) =~= Seq::<Seq<RelationshipRef>>::empty());
            assert(walks(found@).subrange(0, len0 as int) =~= found0);
        }
        while a < frontier.len() && found.len() < q.limit
            invariant
                a <= frontier@.len(),
                depth < q.max_depth,
                !stopped,
                keyed_sorted(sorted@),
                distinct_rel_keys(rv) ==> strict_keys(sorted@),
                distinct_rel_keys(rv) ==> walks_in_key_order(walks(frontier@)),
                distinct_rel_keys(rv) ==> walks_in_key_order(walks(next@)),
                distinct_rel_keys(rv) ==> found_in_search_order(walks(found@)),
                same_walk_past_limit(walks(found@), q.limit),
                rv == rels@,
                from_key@ == entity_key_text(q.from),
                target@ == entity_key_text(q.to),
                forall|t: int| 0 <= t < sorted@.len() ==> stored_rel(
                    rv,
                    (#[trigger] sorted@[t]).rel.relationship,
                ),
                forall|j: int| 0 <= j < rv.len() ==> exists|t: int|
                    0 <= t < sorted@.len() && (#[trigger] sorted@[t]).rel == (#[trigger] rv[j]),
                forall|x: Seq<RelationshipRef>| walks(frontier@).contains(x) ==> is_open_walk(
                    *q,
                    rv,
                    x,
                    depth as nat,
                ),
                forall|x: Seq<RelationshipRef>| walks(next@).contains(x) ==> is_open_walk(
                    *q,
                    rv,
                    x,
                    (depth + 1) as nat,
                ),
                forall|x: Seq<RelationshipRef>| walks(found@).contains(x) ==> is_path_answer(
                    *q,
                    rv,
                    x,
                ),
                len0 <= found@.len(),
                walks(found@).subrange(0, len0 as int) == found0,
                forall|x: Seq<RelationshipRef>| #[trigger] found0.contains(x) ==> x.len() <= depth,
                forall|x: Seq<RelationshipRef>| #![trigger walks(found@).contains(x)]
                    walks(found@).contains(x) && !found0.contains(x) ==> x.len() == depth + 1,
                forall|aa: int, r: RelationshipRef|
                    0 <= aa < a && is_open_walk(
                        *q,
                        rv,
                        #[trigger] walks(frontier@)[aa].push(r),
                        (depth + 1) as nat,
                    ) ==> walks(next@).contains(walks(frontier@)[aa].push(r)),
                forall|aa: int, r: RelationshipRef|
                    0 <= aa < a && is_path_answer(*q, rv, #[trigger] walks(frontier@)[aa].push(r))
                        ==> walks(found@).contains(walks(frontier@)[aa].push(r)),
                distinct_sorted(sorted@) ==> walks(frontier@).no_duplicates() && walks(next@).no_duplicates()
                    && walks(found@).no_duplicates(),
                forall|i: int| 0 <= i < next@.len() ==> exists|aa: int|
                    0 <= aa < a && (#[trigger] walks(next@)[i]).drop_last() == #[trigger] walks(frontier@)[aa],
                forall|i: int| len0 <= i < found@.len() ==> exists|aa: int|
                    0 <= aa < a && (#[trigger] walks(found@)[i]).drop_last() == #[trigger] walks(frontier@)[aa],
                q.limit == 0 ==> found@.len() == 0,
                found@.len() == 0 || found@.len() < q.limit + sorted@.len(),
            decreases frontier@.len() - a,
        {
            let ghost next_before = walks(next@);
            let ghost found_before = walks(found@);
            proof {
                assert(walks(frontier@)[a as int] == frontier@[a as int]@);
                assert(walks(frontier@).contains(frontier@[a as int]@));
                let wa = walks(frontier@)[a as int];
                if distinct_sorted(sorted@) {
                    assert forall|i: int| 0 <= i < next@.len() implies (#[trigger] walks(next@)[i]).drop_last() != wa by {
                        let aa = choose|aa: int| 0 <= aa < a && (#[trigger] walks(next@)[i]).drop_last() == #[trigger] walks(frontier@)[aa];
                        assert(walks(frontier@)[aa] != walks(frontier@)[a as int]);
                    }
                    assert forall|i: int| 0 <= i < found@.len() && (#[trigger] walks(found@)[i]).len() == wa.len() + 1
                        implies walks(found@)[i].drop_last() != wa by {
                        if i < len0 {
                            assert(walks(found@)[i] == walks(found@).subrange(0, len0 as int)[i]);
                            assert(found0.contains(found0[i]));
                        } else {
                            let aa = choose|aa: int| 0 <= aa < a && (#[trigger] walks(found@)[i]).drop_last() == #[trigger] walks(frontier@)[aa];
                            assert(walks(frontier@)[aa] != walks(frontier@)[a as int]);
                        }
                    }
                }
            }
            expand_walk(q, Ghost(rv), &sorted, &from_key, &target, &frontier[a], &mut next, &mut found);
            proof {
                let wa = walks(frontier@)[a as int];
                assert(walks(frontier@)[a as int] == frontier@[a as int]@);
                assert forall|x: Seq<RelationshipRef>| #[trigger] walks(frontier@).contains(x) implies x.len() == depth by {}
                assert forall|x: Seq<RelationshipRef>| #[trigger] walks(found@).contains(x) implies x.len() >= 1 by {
                    assert(is_path_answer(*q, rv, x));
                }
                assert forall|x: Seq<RelationshipRef>| #[trigger] walks(next@).contains(x) implies x.len() == depth + 1 by {}
                if distinct_rel_keys(rv) {
                    assert forall|i: int| 0 <= i < next_before.len() implies exists|aa: int|
                        0 <= aa < a && (#[trigger] next_before[i]).drop_last() == #[trigger] walks(frontier@)[aa] by {
                        assert(walks(next@)[i] == walks(next@).subrange(0, next_before.len() as int)[i]);
                    }
                    lemma_children_in_key_order(next_before, walks(next@), walks(frontier@), a as int, depth as nat);
                }
                assert forall|i: int| 0 <= i < len0 implies (#[trigger] found_before[i]).len() <= depth by {
                    assert(found_before[i] == found_before.subrange(0, len0 as int)[i]);
                    assert(found0.contains(found0[i]));
                }
                if distinct_rel_keys(rv) {
                    assert forall|i: int| len0 <= i < found_before.len() implies exists|aa: int|
                        0 <= aa < a && (#[trigger] found_before[i]).drop_last() == #[trigger] walks(frontier@)[aa] by {
                    }
                    lemma_answers_in_search_order(found_before, walks(found@), walks(frontier@), a as int, depth as nat, len0 as int);
                }
                lemma_answers_start_below(found_before, walks(found@), wa, q.limit);
                assert forall|i: int| 0 <= i < next@.len() implies exists|aa: int|
                    0 <= aa < a + 1 && (#[trigger] walks(next@)[i]).drop_last() == #[trigger] walks(frontier@)[aa] by {
                    if i < next_before.len() {
                        assert(walks(next@)[i] == walks(next@).subrange(0, next_before.len() as int)[i]);
                        assert(walks(next@)[i] == next_before[i]);
                        let aa = choose|aa: int| 0 <= aa < a && (#[trigger] next_before[i]).drop_last() == #[trigger] walks(frontier@)[aa];
                    } else {
                        assert(walks(next@)[i].drop_last() == walks(frontier@)[a as int]);
                    }
                }
                assert forall|i: int| len0 <= i < found@.len() implies exists|aa: int|
                    0 <= aa < a + 1 && (#[trigger] walks(found@)[i]).drop_last() == #[trigger] walks(frontier@)[aa] by {
                    if i < found_before.len() {
                        assert(walks(found@)[i] == walks(found@).subrange(0, found_before.len() as int)[i]);
                        assert(walks(found@)[i] == found_before[i]);
                        let aa = choose|aa: int| 0 <= aa < a && (#[trigger] found_before[i]).drop_last() == #[trigger] walks(frontier@)[aa];
                    } else {
                        assert(walks(found@)[i].drop_last() == walks(frontier@)[a as int]);
                    }
                }
                assert forall|x: Seq<RelationshipRef>| #![trigger walks(found@).contains(x)]
                    walks(found@).contains(x) && !found0.contains(x) implies x.len() == depth + 1 by {
                    if found_before.contains(x) {
                    } else {
                    }
                }
                assert(walks(found@).subrange(0, len0 as int) =~= found0) by {
                    assert(walks(found@).subrange(0, found_before.len() as int) == found_before);
                    assert forall|i: int| 0 <= i < len0 implies walks(found@)[i] == found0[i] by {
                        assert(walks(found@)[i] == walks(found@).subrange(0, found_before.len() as int)[i]);
                        assert(found_before[i] == found_before.subrange(0, len0 as int)[i]);
                    }
                }
                assert forall|aa: int, r: RelationshipRef|
                    0 <= aa < a + 1 && is_open_walk(
                        *q,
                        rv,
                        #[trigger] walks(frontier@)[aa].push(r),
                        (depth + 1) as nat,
                    ) implies walks(next@).contains(walks(frontier@)[aa].push(r)) by {
                    if aa < a {
                        let x = walks(frontier@)[aa].push(r);
                        let i = choose|i: int| 0 <= i < next_before.len() && next_before[i] == x;
                        assert(walks(next@)[i] == walks(next@).subrange(0, next_before.len() as int)[i]);
                    }
                }
                assert forall|aa: int, r: RelationshipRef|
                    0 <= aa < a + 1 && is_path_answer(*q, rv, #[trigger] walks(frontier@)[aa].push(r))
                        implies walks(found@).contains(walks(frontier@)[aa].push(r)) by {
                    if aa < a {
                        let x = walks(frontier@)[aa].push(r);
                        let i = choose|i: int| 0 <= i < found_before.len() && found_before[i] == x;
                        assert(walks(found@)[i] == walks(found@).subrange(0, found_before.len() as int)[i]);
                    }
                }
            }
            a = a + 1;
        }
        proof {
            if a < frontier@.len() {
                assert(found@.len() >= q.limit);
            } else {
                assert forall|x: Seq<RelationshipRef>| is_open_walk(*q, rv, x, (depth + 1) as nat)
                    implies walks(next@).contains(x) by {
                    lemma_open_prefix_open(*q, rv, x, (depth + 1) as nat);
                    let p = x.drop_last();
                    assert(walks(frontier@).contains(p));
                    let aa = choose|aa: int| 0 <= aa < walks(frontier@).len() && walks(frontier@)[aa] == p;
                    assert(walks(frontier@)[aa].push(x.last()) == x);
                }
            }
            assert forall|x: Seq<RelationshipRef>|
                is_path_answer(*q, rv, x) && x.len() <= (if a < frontier@.len() {
                    depth as int
                } else {
                    depth + 1
                }) implies walks(found@).contains(x) by {
                if x.len() <= depth {
                    assert(found0.contains(x));
                    let i = choose|i: int| 0 <= i < found0.len() && found0[i] == x;
                    assert(walks(found@)[i] == walks(found@).subrange(0, len0 as int)[i]);
                } else {
                    lemma_answer_prefix_open(*q, rv, x);
                    let p = x.drop_last();
                    assert(walks(frontier@).contains(p));
                    let aa = choose|aa: int| 0 <= aa < walks(frontier@).len() && walks(frontier@)[aa] == p;
                    assert(walks(frontier@)[aa].push(x.last()) == x);
                }
            }
            assert forall|x: Seq<RelationshipRef>| #[trigger] walks(found@).contains(x) implies x.len()
                <= depth + 1 by {
                if found0.contains(x) {
                }
            }
        }
        if a < frontier.len() {
            stopped = true;
            proof {
                cut_level = walks(frontier@);
                cut_at = a as int;
                assert forall|i: int| 0 <= i < found@.len() implies (#[trigger] walks(found@)[i]).len() < depth + 1
                    || exists|aa: int| 0 <= aa < cut_at && walks(found@)[i].drop_last() == cut_level[aa] by {
                    if i < len0 {
                        assert(walks(found@)[i] == walks(found@).subrange(0, len0 as int)[i]);
                        assert(found0.contains(found0[i]));
                    }
                }
            }
        }
        frontier = next;
        depth = depth + 1;
    }
    let out = paths_in_key_order(q, Ghost(rv), &found);
    proof {
        if distinct_rel_keys(rv) {
            assert forall|x: Seq<RelationshipRef>| #[trigger] walks(found@).contains(x) implies x.len() <= depth && is_path_answer(*q, rv, x) by {}
            let order = choose|order: Seq<usize>|
                #[trigger] is_permutation(order, found@.len()) && forall|t: int|
                    0 <= t < out@.len() ==> steps_of(#[trigger] out@[t]) == walks(found@)[order[t] as int];
            assert(is_permutation(order, walks(found@).len()));
            lemma_cut_in_search_order(*q, rv, walks(found@), out@, depth as nat, stopped, cut_level, cut_at);
        }
        assert forall|w: Seq<RelationshipRef>, i: int|
            #![trigger is_path_answer(*q, rv, w), out@[i]]
            is_path_answer(*q, rv, w) && 0 <= i < out@.len() && (forall|k: int|
                0 <= k < out@.len() ==> steps_of(#[trigger] out@[k]) != w) implies w.len()
            >= out@[i].steps@.len() by {
            assert(walks(found@).contains(steps_of(out@[i])));
            assert(steps_of(out@[i]).len() == out@[i].steps@.len());
            if walks(found@).contains(w) {
                let t = choose|t: int| 0 <= t < out@.len() && steps_of(#[trigger] out@[t]) == w;
            }
        }
        assert forall|w: Seq<RelationshipRef>| out@.len() < q.limit && is_path_answer(*q, rv, w) implies exists|i: int|
            0 <= i < out@.len() && steps_of(#[trigger] out@[i]) == w by {
            assert(walks(found@).contains(w));
        }
    }
    out
}

} // verus!
