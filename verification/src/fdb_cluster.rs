//! A key/value model of the cluster: what a canonical write driven by the
//! `fdb_txn` steps does to it (it stores the whole plan or nothing), and
//! what a stream read of its event records returns.
use vstd::prelude::*;

use crate::fdb_txn::{
    stream_selection, after_head_step, after_idempotency_step, be_bytes, begin_step, edge_in_suffix, edge_out_suffix,
    head_key, head_value, idem_key, link_suffix, ns_key, planned_keys, write_targets_entity, FdbWrite,
    FdbWriteStep, FdbWriteValue,
};
use crate::keyspace::{keyspace_root, sequence_width, FdbKeyspace};
use crate::sort::is_permutation;
use crate::text::{
    bytes_lt, lemma_bytes_lt_asymmetric, lemma_bytes_lt_irreflexive, lemma_bytes_lt_transitive,
    lemma_padded_decimal_digits, padded_decimal,
};
use crate::types::{CanonicalWriteRequest, SorEventRecord, SorNamespace};
use vstd::utf8::{encode_utf8, encode_utf8_decode_utf8};

verus! {

/// The contents of a cluster: each key's bytes.
pub type Cluster = Map<Seq<u8>, Seq<u8>>;

/// What a read of `key` returns.
pub open spec fn read_key(db: Cluster, key: Seq<u8>) -> Option<Seq<u8>> {
    if db.contains_key(key) {
        Some(db[key])
    } else {
        None
    }
}

/// `t` is the step that follows `s` when the read `s` asks for is answered
/// from `db`.
pub open spec fn next_step(req: CanonicalWriteRequest, db: Cluster, s: FdbWriteStep, t: FdbWriteStep) -> bool {
    match s {
        FdbWriteStep::CheckIdempotency(k) => req.event.idempotency_key is Some && after_idempotency_step(
            req,
            db.contains_key(k@),
            t,
        ),
        FdbWriteStep::ReadHead(k) => after_head_step(req, read_key(db, k@), t),
        _ => false,
    }
}

/// A step that ends the transaction.
pub open spec fn is_final(s: FdbWriteStep) -> bool {
    s is Invalid || s is Refused || s is Commit
}

/// `steps` is the run of a canonical write of `req` against `db`: it starts
/// as `canonical_write_begin` does, each step answers the read of the one
/// before, and it stops at the first step that ends the transaction.
pub open spec fn transaction_run(req: CanonicalWriteRequest, db: Cluster, steps: Seq<FdbWriteStep>) -> bool {
    &&& steps.len() >= 1
    &&& begin_step(req, steps[0])
    &&& forall|i: int| 0 <= i < steps.len() - 1 ==> next_step(req, db, #[trigger] steps[i], steps[i + 1])
    &&& is_final(steps.last())
}

/// The cluster after the writes of `plan` are committed, the `i`-th storing
/// `vals[i]`.
pub open spec fn committed(db: Cluster, plan: Seq<FdbWrite>, vals: Seq<Seq<u8>>) -> Cluster
    decreases plan.len(),
{
    if plan.len() == 0 || vals.len() != plan.len() {
        db
    } else {
        committed(db, plan.drop_last(), vals.drop_last()).insert(plan.last().key@, vals.last())
    }
}

/// `vals` are the bytes stored for `plan`: the planned bytes where the plan
/// carries them (event id and head); the encoded records elsewhere.
pub open spec fn stored_values(plan: Seq<FdbWrite>, vals: Seq<Seq<u8>>) -> bool {
    &&& vals.len() == plan.len()
    &&& forall|i: int| 0 <= i < plan.len() ==> match (#[trigger] plan[i]).value {
        FdbWriteValue::EventId(b) => vals[i] == b@,
        FdbWriteValue::Head(b) => vals[i] == b@,
        _ => true,
    }
}

/// The cluster after the transaction ends with `last`: the committed plan,
/// or the cluster unchanged.
pub open spec fn cluster_after(db: Cluster, last: FdbWriteStep, vals: Seq<Seq<u8>>) -> Cluster {
    match last {
        FdbWriteStep::Commit(plan) => committed(db, plan@, vals),
        _ => db,
    }
}

/// Whether the cluster refuses the write: the namespaces differ, the event
/// does not target the entity, its idempotency key is already recorded, or
/// its sequence does not follow the stream head.
pub open spec fn write_refused(req: CanonicalWriteRequest, db: Cluster) -> bool {
    ||| !write_targets_entity(req)
    ||| (req.event.idempotency_key matches Some(k) && db.contains_key(idem_key(req, k@)))
    ||| req.event.sequence != head_value(read_key(db, head_key(req))) + 1
}

proof fn lemma_committed_holds(db: Cluster, plan: Seq<FdbWrite>, vals: Seq<Seq<u8>>, i: int)
    requires
        vals.len() == plan.len(),
        0 <= i < plan.len(),
    ensures
        committed(db, plan, vals).contains_key(plan[i].key@),
        (forall|j: int| i < j < plan.len() ==> (#[trigger] plan[j]).key@ != plan[i].key@)
            ==> committed(db, plan, vals)[plan[i].key@] == vals[i],
    decreases plan.len(),
{
    if i < plan.len() - 1 {
        lemma_committed_holds(db, plan.drop_last(), vals.drop_last(), i);
        assert(plan.drop_last()[i] == plan[i]);
        if forall|j: int| i < j < plan.len() ==> (#[trigger] plan[j]).key@ != plan[i].key@ {
            assert(plan[plan.len() - 1].key@ != plan[i].key@);
            assert forall|j: int| i < j < plan.drop_last().len() implies (#[trigger] plan.drop_last()[j]).key@ != plan.drop_last()[i].key@ by {
                assert(plan.drop_last()[j] == plan[j]);
            }
        }
    }
}

proof fn lemma_committed_elsewhere(db: Cluster, plan: Seq<FdbWrite>, vals: Seq<Seq<u8>>, k: Seq<u8>)
    requires
        vals.len() == plan.len(),
        forall|j: int| 0 <= j < plan.len() ==> (#[trigger] plan[j]).key@ != k,
    ensures
        read_key(committed(db, plan, vals), k) == read_key(db, k),
    decreases plan.len(),
{
    if plan.len() > 0 {
        assert forall|j: int| 0 <= j < plan.drop_last().len() implies (#[trigger] plan.drop_last()[j]).key@ != k by {
            assert(plan.drop_last()[j] == plan[j]);
        }
        lemma_committed_elsewhere(db, plan.drop_last(), vals.drop_last(), k);
        assert(plan[plan.len() - 1].key@ != k);
    }
}

/// Keys of one namespace whose suffixes differ at some position differ.
proof fn lemma_ns_keys_differ(req: CanonicalWriteRequest, a: Seq<char>, b: Seq<char>, i: int)
    requires
        0 <= i < a.len(),
        i < b.len(),
        a[i] != b[i],
    ensures
        ns_key(req, a) != ns_key(req, b),
{
    let r = keyspace_root(req.event.namespace.tenant_id@, req.event.namespace.sor_id@);
    encode_utf8_decode_utf8(r + a);
    encode_utf8_decode_utf8(r + b);
    assert((r + a)[r.len() + i] == a[i]);
    assert((r + b)[r.len() + i] == b[i]);
}

/// The head key differs from every key planned after it.
proof fn lemma_head_key_unique(req: CanonicalWriteRequest, plan: Seq<FdbWrite>)
    requires
        planned_keys(req, plan),
    ensures
        forall|j: int|
            (if req.event.idempotency_key is Some { 1int } else { 0int }) < j < plan.len()
                ==> (#[trigger] plan[j]).key@ != head_key(req),
{
    reveal_strlit("/events/");
    reveal_strlit("/");
    reveal_strlit("_head");
    reveal_strlit("/entities/");
    reveal_strlit("/edges/out/");
    reveal_strlit("/edges/in/");
    reveal_strlit("/links/");
    let ev = req.event;
    let extra: int = if ev.idempotency_key is Some { 1 } else { 0 };
    let nr = req.relationships@.len() as int;
    let sp = FdbKeyspace::stream_prefix(ev.stream_id@);
    let hs = sp + "_head"@;
    assert(hs[1] == 'e' && hs[2] == 'v');
    assert forall|j: int| extra < j < plan.len() implies (#[trigger] plan[j]).key@ != head_key(req) by {
        if j == extra + 1 {
            let d = padded_decimal(ev.sequence as nat, sequence_width());
            lemma_padded_decimal_digits(ev.sequence as nat, sequence_width());
            assert(d[0] == padded_decimal(ev.sequence as nat, sequence_width())[0]);
            let es = sp + d;
            assert(es[sp.len() as int] == d[0]);
            assert(hs[sp.len() as int] == '_');
            lemma_ns_keys_differ(req, es, hs, sp.len() as int);
        } else if j == extra + 2 {
            let s = "/entities/"@ + req.entity.entity_type@ + seq!['\u{1f}'] + req.entity.entity_id@;
            assert(s[2] == 'n');
            lemma_ns_keys_differ(req, s, hs, 2);
        } else if j < extra + 3 + 2 * nr {
            let t = j - extra - 3;
            let q = t / 2;
            assert(0 <= q < nr);
            if t == 2 * q {
                assert(plan[extra + 3 + 2 * q] == plan[j]);
                let s = edge_out_suffix(req.relationships@[q].relationship);
                assert(s[1] == 'e' && s[2] == 'd');
                lemma_ns_keys_differ(req, s, hs, 2);
            } else {
                assert(plan[extra + 3 + 2 * q] == plan[j - 1]);
                assert(j == extra + 4 + 2 * q);
                let s = edge_in_suffix(req.relationships@[q].relationship);
                assert(s[2] == 'd');
                lemma_ns_keys_differ(req, s, hs, 2);
            }
        } else {
            let q = j - extra - 3 - 2 * nr;
            assert(plan[extra + 3 + 2 * nr + q] == plan[j]);
            let s = link_suffix(req.entity_links@[q]);
            assert(s[1] == 'l');
            lemma_ns_keys_differ(req, s, hs, 1);
        }
    }
}

/// The idempotency key differs from every key planned after it.
proof fn lemma_idem_key_unique(req: CanonicalWriteRequest, plan: Seq<FdbWrite>)
    requires
        planned_keys(req, plan),
        req.event.idempotency_key is Some,
    ensures
        forall|j: int| 0 < j < plan.len() ==> (#[trigger] plan[j]).key@ != plan[0].key@,
{
    reveal_strlit("/idempotency/");
    reveal_strlit("/events/");
    reveal_strlit("/entities/");
    reveal_strlit("/edges/out/");
    reveal_strlit("/edges/in/");
    reveal_strlit("/links/");
    let ev = req.event;
    let nr = req.relationships@.len() as int;
    let sp = FdbKeyspace::stream_prefix(ev.stream_id@);
    let is = "/idempotency/"@ + ev.idempotency_key.unwrap()@;
    assert(is[1] == 'i');
    assert forall|j: int| 0 < j < plan.len() implies (#[trigger] plan[j]).key@ != plan[0].key@ by {
        if j == 1 {
            let s = sp + "_head"@;
            assert(s[1] == 'e');
            lemma_ns_keys_differ(req, s, is, 1);
        } else if j == 2 {
            let s = sp + padded_decimal(ev.sequence as nat, sequence_width());
            assert(s[1] == 'e');
            lemma_ns_keys_differ(req, s, is, 1);
        } else if j == 3 {
            let s = "/entities/"@ + req.entity.entity_type@ + seq!['\u{1f}'] + req.entity.entity_id@;
            assert(s[1] == 'e');
            lemma_ns_keys_differ(req, s, is, 1);
        } else if j < 4 + 2 * nr {
            let t = j - 4;
            let q = t / 2;
            assert(0 <= q < nr);
            if t == 2 * q {
                assert(plan[1 + 3 + 2 * q] == plan[j]);
                let s = edge_out_suffix(req.relationships@[q].relationship);
                assert(s[1] == 'e');
                lemma_ns_keys_differ(req, s, is, 1);
            } else {
                assert(j == 1 + 4 + 2 * q);
                let s = edge_in_suffix(req.relationships@[q].relationship);
                assert(s[1] == 'e');
                lemma_ns_keys_differ(req, s, is, 1);
            }
        } else {
            let q = j - 4 - 2 * nr;
            assert(plan[1 + 3 + 2 * nr + q] == plan[j]);
            let s = link_suffix(req.entity_links@[q]);
            assert(s[1] == 'l');
            lemma_ns_keys_differ(req, s, is, 1);
        }
    }
}

/// A canonical write is all or nothing. Run against a cluster, the steps
/// refuse the write exactly when the namespaces differ, the event does not
/// target the entity, the idempotency key is already recorded or the
/// sequence does not follow the stream head; a refused write leaves the
/// cluster as it was. A write that is not refused stores every planned key,
/// moves the head to the event's sequence, records the idempotency key with
/// the event id, and leaves every other key as it was.
pub proof fn law_canonical_write_all_or_nothing(
    req: CanonicalWriteRequest,
    db: Cluster,
    steps: Seq<FdbWriteStep>,
    vals: Seq<Seq<u8>>,
)
    requires
        transaction_run(req, db, steps),
        steps.last() matches FdbWriteStep::Commit(plan) ==> stored_values(plan@, vals),
    ensures
        write_refused(req, db) <==> !(steps.last() is Commit),
        write_refused(req, db) ==> cluster_after(db, steps.last(), vals) == db,
        steps.last() matches FdbWriteStep::Commit(plan) ==> ({
            let after = cluster_after(db, steps.last(), vals);
            &&& planned_keys(req, plan@)
            &&& forall|i: int| 0 <= i < plan@.len() ==> after.contains_key(#[trigger] plan@[i].key@)
            &&& read_key(after, head_key(req)) == Some(be_bytes(req.event.sequence))
            &&& (req.event.idempotency_key matches Some(k) ==> read_key(after, idem_key(req, k@))
                == Some(encode_utf8(req.event.event_id@)))
            &&& forall|k: Seq<u8>| (forall|i: int| 0 <= i < plan@.len() ==> (#[trigger] plan@[i]).key@ != k)
                ==> read_key(after, k) == read_key(db, k)
        }),
{
    let s0 = steps[0];
    let hk = head_key(req);
    let head = read_key(db, hk);
    if steps.len() > 1 {
        assert(next_step(req, db, steps[0], steps[1]));
    }
    if !write_targets_entity(req) {
        assert(s0 is Invalid);
        assert(steps.len() == 1);
    } else {
        match req.event.idempotency_key {
            Some(k) => {
                let ik = idem_key(req, k@);
                assert(s0 matches FdbWriteStep::CheckIdempotency(key) && key@ == ik);
                assert(steps.len() > 1);
                let s1 = steps[1];
                assert(after_idempotency_step(req, db.contains_key(ik), s1));
                if db.contains_key(ik) {
                    assert(s1 is Refused);
                    if steps.len() > 2 {
                        assert(next_step(req, db, steps[1], steps[2]));
                    }
                    assert(steps.len() == 2);
                } else {
                    assert(s1 matches FdbWriteStep::ReadHead(key) && key@ == hk);
                    assert(steps.len() > 2) by {
                        if steps.len() == 2 {
                            assert(is_final(steps.last()));
                        }
                    }
                    assert(next_step(req, db, steps[1], steps[2]));
                    assert(after_head_step(req, head, steps[2]));
                    if steps.len() > 3 {
                        assert(next_step(req, db, steps[2], steps[3]));
                    }
                    assert(steps.len() == 3);
                }
            },
            None => {
                assert(s0 matches FdbWriteStep::ReadHead(key) && key@ == hk);
                assert(steps.len() > 1) by {
                    if steps.len() == 1 {
                        assert(is_final(steps.last()));
                    }
                }
                assert(after_head_step(req, head, steps[1]));
                if steps.len() > 2 {
                    assert(next_step(req, db, steps[1], steps[2]));
                }
                assert(steps.len() == 2);
            },
        }
    }
    match steps.last() {
        FdbWriteStep::Commit(plan) => {
            let p = plan@;
            assert(planned_keys(req, p));
            let extra: int = if req.event.idempotency_key is Some { 1 } else { 0 };
            let after = committed(db, p, vals);
            assert forall|i: int| 0 <= i < p.len() implies after.contains_key(#[trigger] p[i].key@) by {
                lemma_committed_holds(db, p, vals, i);
            }
            lemma_head_key_unique(req, p);
            lemma_committed_holds(db, p, vals, extra);
            assert(p[extra].value matches FdbWriteValue::Head(b) && vals[extra] == b@);
            if req.event.idempotency_key is Some {
                lemma_idem_key_unique(req, p);
                lemma_committed_holds(db, p, vals, 0);
                assert(p[0].value matches FdbWriteValue::EventId(b) && vals[0] == b@);
            }
            assert forall|k: Seq<u8>| (forall|i: int| 0 <= i < p.len() ==> (#[trigger] p[i]).key@ != k) implies read_key(after, k) == read_key(db, k) by {
                lemma_committed_elsewhere(db, p, vals, k);
            }
        },
        _ => {},
    }
}

/// Event records of one namespace as stored, each under its key.
pub type EventRecords = Map<Seq<u8>, SorEventRecord>;

/// The key of event `n` of `stream` in the keyspace `ks`.
pub open spec fn event_key(ks: FdbKeyspace, stream: Seq<char>, n: u64) -> Seq<u8> {
    encode_utf8(ks.event_key_text(stream, n))
}

/// Every record of `events` lies under the key of its stream and of the
/// sequence it carries.
pub open spec fn keyed_by_sequence(ks: FdbKeyspace, events: EventRecords) -> bool {
    forall|k: Seq<u8>|
        #[trigger] events.contains_key(k) ==> exists|s: Seq<char>, n: u64|
            k == #[trigger] event_key(ks, s, n) && events[k].sequence == n
}

/// `k` lies in the half-open range `[lo, hi)`.
pub open spec fn in_range(lo: Seq<u8>, hi: Seq<u8>, k: Seq<u8>) -> bool {
    (lo == k || bytes_lt(lo, k)) && bytes_lt(k, hi)
}

/// `keys` are the keys of `events` that a read of `[lo, hi)` with at most
/// `cap` results returns: keys in the range, in byte order, the first `cap`
/// of them.
pub open spec fn range_keys(events: EventRecords, lo: Seq<u8>, hi: Seq<u8>, cap: nat, keys: Seq<Seq<u8>>) -> bool {
    &&& keys.len() <= cap
    &&& forall|i: int| 0 <= i < keys.len() ==> events.contains_key(#[trigger] keys[i]) && in_range(lo, hi, keys[i])
    &&& forall|i: int, j: int| 0 <= i < j < keys.len() ==> bytes_lt(#[trigger] keys[i], #[trigger] keys[j])
    &&& forall|k: Seq<u8>|
        #[trigger] events.contains_key(k) && in_range(lo, hi, k) && (keys.len() < cap || (keys.len() > 0
            && bytes_lt(k, keys.last()))) ==> keys.contains(k)
}

/// `got` is what a read of `[lo, hi)` of `events` with at most `cap`
/// results returns: the records under the keys of `range_keys`, in order.
pub open spec fn range_read(events: EventRecords, lo: Seq<u8>, hi: Seq<u8>, cap: nat, got: Seq<SorEventRecord>) -> bool {
    exists|keys: Seq<Seq<u8>>|
        #[trigger] range_keys(events, lo, hi, cap, keys) && got.len() == keys.len() && forall|i: int|
            0 <= i < got.len() ==> got[i] == events[keys[i]]
}

/// `out` is the slice of `stream` after `from`: the stored events of the
/// stream with a sequence above `from`, in sequence order, the first `limit`
/// of them.
pub open spec fn stream_slice_of(
    ks: FdbKeyspace,
    events: EventRecords,
    stream: Seq<char>,
    from: u64,
    limit: nat,
    out: Seq<SorEventRecord>,
) -> bool {
    &&& out.len() <= limit
    &&& forall|i: int, j: int| 0 <= i < j < out.len() ==> (#[trigger] out[i]).sequence < (#[trigger] out[j]).sequence
    &&& forall|i: int|
        0 <= i < out.len() ==> from < (#[trigger] out[i]).sequence && events.contains_key(event_key(ks, stream, out[i].sequence))
            && events[event_key(ks, stream, out[i].sequence)] == out[i]
    &&& forall|n: u64|
        from < n && #[trigger] events.contains_key(event_key(ks, stream, n)) && (out.len() < limit || (out.len() > 0
            && n < out.last().sequence)) ==> exists|i: int| 0 <= i < out.len() && out[i].sequence == n
}

proof fn lemma_filter_all(s: Seq<SorEventRecord>, from: u64)
    requires
        forall|i: int| 0 <= i < s.len() ==> from < (#[trigger] s[i]).sequence,
    ensures
        s.filter(|e: SorEventRecord| e.sequence > from) == s,
    decreases s.len(),
{
    reveal(Seq::filter);
    if s.len() > 0 {
        assert forall|i: int| 0 <= i < s.drop_last().len() implies from < (#[trigger] s.drop_last()[i]).sequence by {
            assert(s.drop_last()[i] == s[i]);
        }
        lemma_filter_all(s.drop_last(), from);
        assert(s.drop_last().push(s.last()) =~= s);
    }
}

proof fn lemma_increasing_permutation(order: Seq<usize>, n: nat, i: int)
    requires
        is_permutation(order, n),
        forall|a: int, b: int| 0 <= a < b < n ==> order[a] < order[b],
        0 <= i < n,
    ensures
        order[i] == i,
{
    lemma_increasing_below(order, n, i);
    lemma_increasing_above(order, n, i);
}

proof fn lemma_increasing_below(order: Seq<usize>, n: nat, i: int)
    requires
        is_permutation(order, n),
        forall|a: int, b: int| 0 <= a < b < n ==> order[a] < order[b],
        0 <= i < n,
    ensures
        i <= order[i],
    decreases i,
{
    if i > 0 {
        lemma_increasing_below(order, n, i - 1);
        assert(order[i - 1] < order[i]);
    }
}

proof fn lemma_increasing_above(order: Seq<usize>, n: nat, i: int)
    requires
        is_permutation(order, n),
        forall|a: int, b: int| 0 <= a < b < n ==> order[a] < order[b],
        0 <= i < n,
    ensures
        order[i] <= i,
    decreases n - i,
{
    if i < n - 1 {
        lemma_increasing_above(order, n, i + 1);
        assert(order[i] < order[i + 1]);
    }
}

/// The range a stream read after `from` scans, as a read sees it: every key
/// read is the key of an event of the stream after `from`, and keys in byte
/// order are events in sequence order.
proof fn lemma_read_keys(
    ks: FdbKeyspace,
    stream: Seq<char>,
    from: u64,
    events: EventRecords,
    lo: Seq<u8>,
    hi: Seq<u8>,
    cap: nat,
    keys: Seq<Seq<u8>>,
    got: Seq<SorEventRecord>,
)
    requires
        keyed_by_sequence(ks, events),
        from < u64::MAX,
        lo == event_key(ks, stream, (from + 1) as u64),
        hi == encode_utf8(ks.key_text(FdbKeyspace::stream_prefix(stream) + ":"@)),
        range_keys(events, lo, hi, cap, keys),
        got.len() == keys.len(),
        forall|i: int| 0 <= i < got.len() ==> got[i] == events[keys[i]],
    ensures
        forall|i: int| 0 <= i < keys.len() ==> (#[trigger] keys[i]) == event_key(ks, stream, got[i].sequence)
            && from < got[i].sequence,
        forall|i: int, j: int| 0 <= i < j < keys.len() ==> (#[trigger] got[i]).sequence < (#[trigger] got[j]).sequence,
{
    let first = (from + 1) as u64;
    let lo0 = encode_utf8(ks.key_text(FdbKeyspace::stream_prefix(stream) + "0"@));
    ks.lemma_stream_range_brackets_events(stream, first);
    assert forall|i: int| 0 <= i < keys.len() implies (#[trigger] keys[i]) == event_key(ks, stream, got[i].sequence)
        && from < got[i].sequence by {
        let k = keys[i];
        assert(events.contains_key(k) && in_range(lo, hi, k));
        let (s2, n) = choose|s: Seq<char>, n: u64| k == #[trigger] event_key(ks, s, n) && events[k].sequence == n;
        if s2 != stream {
            ks.lemma_stream_range_excludes_other_streams(stream, s2, n);
            lemma_bytes_lt_transitive(lo0, lo, k);
        }
        ks.lemma_event_keys_ordered_by_sequence(stream, n, first);
        lemma_bytes_lt_asymmetric(k, lo);
        lemma_bytes_lt_irreflexive(k);
    }
    assert forall|i: int, j: int| 0 <= i < j < keys.len() implies (#[trigger] got[i]).sequence < (#[trigger] got[j]).sequence by {
        assert(bytes_lt(keys[i], keys[j]));
        assert(keys[i] == event_key(ks, stream, got[i].sequence));
        assert(keys[j] == event_key(ks, stream, got[j].sequence));
        ks.lemma_event_keys_ordered_by_sequence(stream, got[i].sequence, got[j].sequence);
    }
}

/// Selecting from records that all follow `from` and come in sequence order
/// keeps them as they are, the first `limit` of them.
proof fn lemma_selection_keeps_order(got: Seq<SorEventRecord>, out: Seq<SorEventRecord>, from: u64, limit: nat)
    requires
        forall|i: int| 0 <= i < got.len() ==> from < (#[trigger] got[i]).sequence,
        forall|i: int, j: int| 0 <= i < j < got.len() ==> (#[trigger] got[i]).sequence < (#[trigger] got[j]).sequence,
        stream_selection(out, got, from, limit),
    ensures
        out.len() == (if limit < got.len() { limit } else { got.len() }),
        forall|i: int| 0 <= i < out.len() ==> out[i] == got[i],
{
    lemma_filter_all(got, from);
    let all = got.filter(|e: SorEventRecord| e.sequence > from);
    let m = got.len();
    let order = choose|order: Seq<usize>|
        #[trigger] is_permutation(order, all.len()) && (forall|i: int, j: int|
            0 <= i < j < order.len() ==> all[#[trigger] order[i] as int].sequence <= all[#[trigger] order[j] as int].sequence)
            && out.len() == (if limit < all.len() { limit } else { all.len() })
            && forall|i: int| 0 <= i < out.len() ==> out[i] == all[order[i] as int];
    assert forall|a: int, b: int| 0 <= a < b < m implies order[a] < order[b] by {
        assert(order[a] != order[b]);
        if order[b] < order[a] {
            assert(got[order[b] as int].sequence < got[order[a] as int].sequence);
        }
    }
    assert forall|i: int| 0 <= i < out.len() implies out[i] == got[i] by {
        lemma_increasing_permutation(order, m, i);
    }
}

/// A read of a stream returns what the stream holds. With the event records
/// of a namespace each stored under the key of its stream and sequence, a
/// read of the key range that `stream_read_range` gives (at most `limit`
/// keys, or one when `limit` is 0), passed through `select_stream_events`,
/// yields the stored events of that stream with a sequence above `from`, in
/// sequence order, the first `limit` of them.
pub proof fn law_stream_read(
    ks: FdbKeyspace,
    namespace: SorNamespace,
    stream: Seq<char>,
    from: u64,
    limit: nat,
    events: EventRecords,
    lo: Seq<u8>,
    hi: Seq<u8>,
    got: Seq<SorEventRecord>,
    out: Seq<SorEventRecord>,
)
    requires
        ks.root_text() == keyspace_root(namespace.tenant_id@, namespace.sor_id@),
        keyed_by_sequence(ks, events),
        from < u64::MAX,
        lo == encode_utf8(
            keyspace_root(namespace.tenant_id@, namespace.sor_id@) + FdbKeyspace::stream_prefix(stream)
                + padded_decimal((from + 1) as nat, sequence_width()),
        ),
        hi == encode_utf8(keyspace_root(namespace.tenant_id@, namespace.sor_id@) + (FdbKeyspace::stream_prefix(stream) + ":"@)),
        range_read(events, lo, hi, if limit > 0 { limit } else { 1 }, got),
        stream_selection(out, got, from, limit),
    ensures
        stream_slice_of(ks, events, stream, from, limit, out),
{
    let cap: nat = if limit > 0 { limit } else { 1 };
    let keys = choose|keys: Seq<Seq<u8>>|
        #[trigger] range_keys(events, lo, hi, cap, keys) && got.len() == keys.len() && forall|i: int|
            0 <= i < got.len() ==> got[i] == events[keys[i]];
    let m = keys.len() as int;
    let first = (from + 1) as u64;
    assert(lo == event_key(ks, stream, first)) by {
        assert(ks.event_key_text(stream, first) =~= keyspace_root(namespace.tenant_id@, namespace.sor_id@)
            + FdbKeyspace::stream_prefix(stream) + padded_decimal((from + 1) as nat, sequence_width()));
    }
    assert(hi == encode_utf8(ks.key_text(FdbKeyspace::stream_prefix(stream) + ":"@)));
    lemma_read_keys(ks, stream, from, events, lo, hi, cap, keys, got);
    assert forall|i: int| 0 <= i < got.len() implies from < (#[trigger] got[i]).sequence by {
        assert(keys[i] == event_key(ks, stream, got[i].sequence));
    }
    lemma_selection_keeps_order(got, out, from, limit);
    let l = out.len() as int;
    assert forall|i: int| 0 <= i < l implies from < (#[trigger] out[i]).sequence && events.contains_key(
        event_key(ks, stream, out[i].sequence),
    ) && events[event_key(ks, stream, out[i].sequence)] == out[i] by {
        assert(out[i] == got[i]);
        assert(keys[i] == event_key(ks, stream, got[i].sequence));
    }
    assert forall|i: int, j: int| 0 <= i < j < l implies (#[trigger] out[i]).sequence < (#[trigger] out[j]).sequence by {
        assert(out[i] == got[i] && out[j] == got[j]);
    }
    assert forall|n: u64|
        from < n && #[trigger] events.contains_key(event_key(ks, stream, n)) && (l < limit || (l > 0 && n
            < out.last().sequence)) implies exists|i: int| 0 <= i < l && out[i].sequence == n by {
        lemma_read_finds(ks, stream, from, limit, events, lo, hi, cap, keys, got, out, n);
    }
}

/// An event of the stream after `from` that the slice should hold is among
/// the records read, at a position the slice keeps.
#[verifier::spinoff_prover]
proof fn lemma_read_finds(
    ks: FdbKeyspace,
    stream: Seq<char>,
    from: u64,
    limit: nat,
    events: EventRecords,
    lo: Seq<u8>,
    hi: Seq<u8>,
    cap: nat,
    keys: Seq<Seq<u8>>,
    got: Seq<SorEventRecord>,
    out: Seq<SorEventRecord>,
    n: u64,
)
    requires
        from < u64::MAX,
        cap == (if limit > 0 { limit } else { 1 }),
        lo == event_key(ks, stream, (from + 1) as u64),
        hi == encode_utf8(ks.key_text(FdbKeyspace::stream_prefix(stream) + ":"@)),
        range_keys(events, lo, hi, cap, keys),
        got.len() == keys.len(),
        forall|i: int| 0 <= i < keys.len() ==> (#[trigger] keys[i]) == event_key(ks, stream, got[i].sequence)
            && from < got[i].sequence,
        forall|i: int, j: int| 0 <= i < j < keys.len() ==> (#[trigger] got[i]).sequence < (#[trigger] got[j]).sequence,
        out.len() == (if limit < got.len() { limit } else { got.len() }),
        forall|i: int| 0 <= i < out.len() ==> out[i] == got[i],
        from < n,
        events.contains_key(event_key(ks, stream, n)),
        out.len() < limit || (out.len() > 0 && n < out.last().sequence),
    ensures
        exists|i: int| 0 <= i < out.len() && out[i].sequence == n,
{
    let l = out.len() as int;
    let m = keys.len() as int;
    let first = (from + 1) as u64;
    let k = event_key(ks, stream, n);
    ks.lemma_stream_range_brackets_events(stream, n);
    ks.lemma_event_keys_ordered_by_sequence(stream, first, n);
    assert(in_range(lo, hi, k));
    if l < limit {
        assert(keys.len() < cap);
    } else {
        let t = got[l - 1].sequence;
        assert(keys[l - 1] == event_key(ks, stream, t));
        ks.lemma_event_keys_ordered_by_sequence(stream, n, t);
        if l - 1 < m - 1 {
            assert(bytes_lt(keys[l - 1], keys[m - 1]));
            lemma_bytes_lt_transitive(k, keys[l - 1], keys[m - 1]);
        }
    }
    assert(keys.contains(k));
    let i = choose|i: int| 0 <= i < keys.len() && keys[i] == k;
    assert(keys[i] == event_key(ks, stream, got[i].sequence));
    ks.lemma_event_keys_ordered_by_sequence(stream, got[i].sequence, n);
    ks.lemma_event_keys_ordered_by_sequence(stream, n, got[i].sequence);
    lemma_bytes_lt_irreflexive(k);
    assert(got[i].sequence == n);
    if i >= l {
        assert(got[i].sequence >= got[l - 1].sequence);
    }
    assert(out[i] == got[i]);
}

} // verus!
