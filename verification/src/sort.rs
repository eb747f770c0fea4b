//! Ordering of records by a key, used wherever results must come out in a
//! deterministic order: `sorted_order` keeps records whose keys sort neither
//! way in their input order.
use vstd::prelude::*;

verus! {

broadcast use vstd::seq_lib::group_to_multiset_ensures;

/// Records ordered by a strict weak order on their keys.
pub trait SortKey: Sized {
    /// `self`'s key sorts strictly before `other`'s.
    spec fn key_lt(self, other: Self) -> bool;

    fn key_less(&self, other: &Self) -> (r: bool)
        ensures
            r == self.key_lt(*other),
    ;

    /// No key sorts before itself.
    proof fn lemma_key_lt_irreflexive(a: Self)
        ensures
            !a.key_lt(a),
    ;

    /// The key order is transitive.
    proof fn lemma_key_lt_transitive(a: Self, b: Self, c: Self)
        ensures
            a.key_lt(b) && b.key_lt(c) ==> a.key_lt(c),
    ;

    /// A key that sorts before `c` sorts before `b`, or `b` sorts before
    /// `c`: keys that sort neither way are interchangeable.
    proof fn lemma_key_lt_negative_transitive(a: Self, b: Self, c: Self)
        ensures
            a.key_lt(c) ==> a.key_lt(b) || b.key_lt(c),
    ;
}

/// No element sorts strictly before an element that precedes it.
pub open spec fn is_sorted<T: SortKey>(s: Seq<T>) -> bool {
    forall|i: int, j: int| 0 <= i < j < s.len() ==> !(#[trigger] s[j]).key_lt(#[trigger] s[i])
}

/// The records of `v` in non-decreasing key order: each record is inserted
/// after all records already placed that do not sort after it.
pub fn sort_by_key<T: SortKey>(v: Vec<T>) -> (out: Vec<T>)
    ensures
        is_sorted(out@),
        out@.to_multiset() == v@.to_multiset(),
        out@.len() == v@.len(),
{
    let ghost orig = v@;
    let mut rest = v;
    let mut out: Vec<T> = Vec::new();
    while rest.len() > 0
        invariant
            is_sorted(out@),
            out@.to_multiset().add(rest@.to_multiset()) == orig.to_multiset(),
            out@.len() + rest@.len() == orig.len(),
        decreases rest.len(),
    {
        let ghost before_rest = rest@;
        let x = rest.remove(0);
        let mut p: usize = 0;
        while p < out.len() && !x.key_less(&out[p])
            invariant
                p <= out@.len(),
                forall|k: int| 0 <= k < p ==> !x.key_lt(#[trigger] out@[k]),
            decreases out.len() - p,
        {
            p = p + 1;
        }
        let ghost before = out@;
        out.insert(p, x);
        proof {
            assert(out@ == before.insert(p as int, x));
            assert forall|i: int, j: int| 0 <= i < j < out@.len() implies !(
            #[trigger] out@[j]).key_lt(#[trigger] out@[i]) by {
                if j == p {
                    assert(out@[i] == before[i]);
                } else if i == p {
                    assert(out@[j] == before[j - 1]);
                    assert(p < before.len());
                    assert(x.key_lt(before[p as int]));
                    if j - 1 > p {
                        assert(!before[j - 1].key_lt(before[p as int]));
                    }
                    T::lemma_key_lt_transitive(before[j - 1], x, before[p as int]);
                    T::lemma_key_lt_irreflexive(before[p as int]);
                } else {
                    let bi = if i < p {
                        i
                    } else {
                        i - 1
                    };
                    let bj = if j < p {
                        j
                    } else {
                        j - 1
                    };
                    assert(out@[i] == before[bi]);
                    assert(out@[j] == before[bj]);
                    assert(bi < bj);
                }
            }
            assert(before_rest.remove(0).to_multiset() == before_rest.to_multiset().remove(
                before_rest[0],
            ));
            assert(before_rest.to_multiset().count(x) > 0);
            assert(out@.to_multiset() == before.to_multiset().insert(x));
            assert(out@.to_multiset().add(rest@.to_multiset()) =~= orig.to_multiset());
        }
    }
    proof {
        assert(rest@.to_multiset() =~= vstd::multiset::Multiset::empty());
        assert(out@.to_multiset() =~= orig.to_multiset());
    }
    out
}


/// `order` lists each of `0..n` exactly once.
pub open spec fn is_permutation(order: Seq<usize>, n: nat) -> bool {
    &&& order.len() == n
    &&& forall|i: int| 0 <= i < n ==> #[trigger] order[i] < n
    &&& forall|i: int, j: int| 0 <= i < j < n ==> #[trigger] order[i] != #[trigger] order[j]
}

/// A permutation of `0..n` takes every value below `n`.
pub proof fn lemma_permutation_onto(order: Seq<usize>, n: nat, j: int)
    requires
        is_permutation(order, n),
        0 <= j < n,
    ensures
        exists|i: int| 0 <= i < n && order[i] as int == j,
{
    let s = order.map_values(|x: usize| x as int);
    assert forall|a: int, b: int| 0 <= a < s.len() && 0 <= b < s.len() && a != b implies s[a] != s[b] by {
        if a < b {
            assert(order[a] != order[b]);
        } else {
            assert(order[b] != order[a]);
        }
    }
    s.unique_seq_to_set();
    let range = vstd::set_lib::set_int_range(0, n as int);
    vstd::set_lib::lemma_int_range(0, n as int);
    assert forall|x: int| s.to_set().contains(x) implies range.contains(x) by {
        let i = choose|i: int| 0 <= i < s.len() && s[i] == x;
        assert(order[i] < n);
    }
    s.lemma_cardinality_of_set();
    vstd::set_lib::lemma_subset_equality(s.to_set(), range);
    assert(range.contains(j));
    assert(s.to_set().contains(j));
    let i = choose|i: int| 0 <= i < s.len() && s[i] == j;
    assert(order[i] as int == j);
}

/// `keys` visited in the order `order` never step back in key order.
pub open spec fn orders_keys<K: SortKey>(keys: Seq<K>, order: Seq<usize>) -> bool {
    forall|i: int, j: int|
        0 <= i < j < order.len() ==> !keys[#[trigger] order[j] as int].key_lt(
            keys[#[trigger] order[i] as int],
        )
}

/// A key paired with the position it came from.
pub struct Indexed<K> {
    pub key: K,
    pub index: usize,
}

/// Ordered by key, and keys that sort neither way by position.
impl<K: SortKey> SortKey for Indexed<K> {
    open spec fn key_lt(self, other: Self) -> bool {
        self.key.key_lt(other.key) || (!other.key.key_lt(self.key) && self.index < other.index)
    }

    fn key_less(&self, other: &Self) -> (r: bool) {
        self.key.key_less(&other.key) || (!other.key.key_less(&self.key) && self.index < other.index)
    }

    proof fn lemma_key_lt_irreflexive(a: Self) {
        K::lemma_key_lt_irreflexive(a.key);
    }

    proof fn lemma_key_lt_transitive(a: Self, b: Self, c: Self) {
        K::lemma_key_lt_transitive(a.key, b.key, c.key);
        K::lemma_key_lt_negative_transitive(a.key, c.key, b.key);
        K::lemma_key_lt_negative_transitive(b.key, a.key, c.key);
        K::lemma_key_lt_negative_transitive(c.key, b.key, a.key);
    }

    proof fn lemma_key_lt_negative_transitive(a: Self, b: Self, c: Self) {
        K::lemma_key_lt_negative_transitive(a.key, b.key, c.key);
        K::lemma_key_lt_negative_transitive(b.key, c.key, a.key);
        K::lemma_key_lt_negative_transitive(c.key, a.key, b.key);
    }
}

/// Keys that sort neither way keep the order of their positions.
pub open spec fn keeps_ties<K: SortKey>(keys: Seq<K>, order: Seq<usize>) -> bool {
    forall|i: int, j: int|
        0 <= i < j < order.len() && !keys[#[trigger] order[i] as int].key_lt(keys[#[trigger] order[j] as int])
            ==> order[i] < order[j]
}

/// The positions of `keys` in non-decreasing key order; keys that sort
/// neither way keep their input order.
pub fn sorted_order<K: SortKey>(keys: Vec<K>) -> (order: Vec<usize>)
    ensures
        is_permutation(order@, keys@.len()),
        orders_keys(keys@, order@),
        keeps_ties(keys@, order@),
{
    let ghost ks = keys@;
    let n = keys.len();
    let mut tagged: Vec<Indexed<K>> = Vec::new();
    let mut rest = keys;
    let mut i: usize = 0;
    while rest.len() > 0
        invariant
            i + rest@.len() == n,
            ks.len() == n,
            rest@ == ks.skip(i as int),
            tagged@.len() == i,
            forall|j: int| 0 <= j < i ==> (#[trigger] tagged@[j]).index == j && tagged@[j].key
                == ks[j],
        decreases rest.len(),
    {
        let k = rest.remove(0);
        assert(ks.skip(i as int).remove(0) =~= ks.skip(i + 1));
        tagged.push(Indexed { key: k, index: i });
        i = i + 1;
    }
    let ghost before = tagged@;
    assert(before.no_duplicates()) by {
        assert forall|a: int, b: int| 0 <= a < before.len() && 0 <= b < before.len() && a != b
            implies before[a] != before[b] by {
            assert(before[a].index != before[b].index);
        }
    }
    let sorted = sort_by_key(tagged);
    proof {
        before.lemma_multiset_has_no_duplicates();
        assert forall|x: Indexed<K>| sorted@.to_multiset().count(x) <= 1 by {
            assert(before.to_multiset().count(x) <= 1);
        }
        sorted@.lemma_multiset_has_no_duplicates_conv();
        assert forall|a: int| 0 <= a < sorted@.len() implies before.contains(#[trigger] sorted@[a])
            by {
            assert(sorted@.to_multiset().count(sorted@[a]) > 0);
            assert(before.to_multiset().count(sorted@[a]) > 0);
        }
    }
    let mut order: Vec<usize> = Vec::new();
    let m = sorted.len();
    for t in 0..m
        invariant
            m == sorted@.len(),
            m == n,
            order@.len() == t,
            forall|j: int| 0 <= j < t ==> #[trigger] order@[j] == sorted@[j].index,
    {
        order.push(sorted[t].index);
    }
    proof {
        assert forall|a: int| 0 <= a < n implies #[trigger] order@[a] < n && ks[order@[a] as int]
            == sorted@[a].key by {
            let j = choose|j: int| 0 <= j < before.len() && before[j] == sorted@[a];
            assert(before[j].index == j);
        }
        assert forall|a: int, b: int| 0 <= a < b < n implies #[trigger] order@[a]
            != #[trigger] order@[b] by {
            let ja = choose|j: int| 0 <= j < before.len() && before[j] == sorted@[a];
            let jb = choose|j: int| 0 <= j < before.len() && before[j] == sorted@[b];
            assert(sorted@[a] != sorted@[b]);
        }
        assert forall|a: int, b: int| 0 <= a < b < order@.len() implies !ks[
            #[trigger] order@[b] as int].key_lt(ks[#[trigger] order@[a] as int]) by {
            let ja = choose|j: int| 0 <= j < before.len() && before[j] == sorted@[a];
            let jb = choose|j: int| 0 <= j < before.len() && before[j] == sorted@[b];
            assert(!sorted@[b].key_lt(sorted@[a]));
        }
    }
    order
}

/// Strings ordered as Rust orders them.
pub struct StrKey {
    pub text: String,
}

impl SortKey for StrKey {
    open spec fn key_lt(self, other: Self) -> bool {
        crate::text::chars_lt(self.text@, other.text@)
    }

    fn key_less(&self, other: &Self) -> (r: bool) {
        crate::text::string_lt(&self.text, &other.text)
    }

    proof fn lemma_key_lt_irreflexive(a: Self) {
        crate::text::lemma_chars_lt_irreflexive(a.text@);
    }

    proof fn lemma_key_lt_transitive(a: Self, b: Self, c: Self) {
        crate::text::lemma_chars_lt_transitive(a.text@, b.text@, c.text@);
    }

    proof fn lemma_key_lt_negative_transitive(a: Self, b: Self, c: Self) {
        crate::text::lemma_chars_lt_negative_transitive(a.text@, b.text@, c.text@);
    }
}

} // verus!
