//! Lexicographic order on tuples of optional texts, the order Rust's derived
//! `Ord` gives tuples and vectors of `String` / `Option<String>` (absent
//! sorts before present; a proper prefix sorts first).
use vstd::prelude::*;

use crate::sort::SortKey;
use crate::text::{chars_lt, lemma_chars_lt_irreflexive, lemma_chars_lt_transitive, string_lt};

verus! {

/// The text of an optional string.
pub open spec fn opt_view(o: Option<String>) -> Option<Seq<char>> {
    match o {
        Some(s) => Some(s@),
        None => None,
    }
}

/// `None` before every `Some`; `Some`s by their text.
pub open spec fn opt_lt(a: Option<Seq<char>>, b: Option<Seq<char>>) -> bool {
    match (a, b) {
        (None, Some(_)) => true,
        (Some(x), Some(y)) => chars_lt(x, y),
        _ => false,
    }
}

/// Lexicographic order on sequences of optional texts.
pub open spec fn parts_lt(a: Seq<Option<Seq<char>>>, b: Seq<Option<Seq<char>>>) -> bool
    decreases a.len(),
{
    if a.len() == 0 {
        b.len() > 0
    } else if b.len() == 0 {
        false
    } else if a[0] != b[0] {
        opt_lt(a[0], b[0])
    } else {
        parts_lt(a.drop_first(), b.drop_first())
    }
}

pub proof fn lemma_opt_lt_irreflexive(a: Option<Seq<char>>)
    ensures
        !opt_lt(a, a),
{
    if let Some(x) = a {
        lemma_chars_lt_irreflexive(x);
    }
}

pub proof fn lemma_opt_lt_transitive(a: Option<Seq<char>>, b: Option<Seq<char>>, c: Option<Seq<char>>)
    ensures
        opt_lt(a, b) && opt_lt(b, c) ==> opt_lt(a, c),
{
    if let (Some(x), Some(y), Some(z)) = (a, b, c) {
        lemma_chars_lt_transitive(x, y, z);
    }
}

pub proof fn lemma_opt_lt_total(a: Option<Seq<char>>, b: Option<Seq<char>>)
    ensures
        a == b || opt_lt(a, b) || opt_lt(b, a),
{
    if let (Some(x), Some(y)) = (a, b) {
        crate::text::lemma_chars_lt_total(x, y);
    }
}

/// Lexicographic order on parts is total: distinct keys are ordered one way.
pub proof fn lemma_parts_lt_total(a: Seq<Option<Seq<char>>>, b: Seq<Option<Seq<char>>>)
    ensures
        a == b || parts_lt(a, b) || parts_lt(b, a),
    decreases a.len(),
{
    if a.len() > 0 && b.len() > 0 {
        if a[0] == b[0] {
            lemma_parts_lt_total(a.drop_first(), b.drop_first());
            if a.drop_first() == b.drop_first() {
                assert(a =~= seq![a[0]] + a.drop_first());
                assert(b =~= seq![b[0]] + b.drop_first());
            }
        } else {
            lemma_opt_lt_total(a[0], b[0]);
        }
    } else if a.len() == 0 && b.len() == 0 {
        assert(a =~= b);
    }
}

/// Keys that sort before `c` sort before `b`, or `b` sorts before `c`.
pub proof fn lemma_parts_lt_negative_transitive(
    a: Seq<Option<Seq<char>>>,
    b: Seq<Option<Seq<char>>>,
    c: Seq<Option<Seq<char>>>,
)
    ensures
        parts_lt(a, c) ==> parts_lt(a, b) || parts_lt(b, c),
{
    lemma_parts_lt_total(a, b);
    lemma_parts_lt_transitive(b, a, c);
}

pub proof fn lemma_parts_lt_irreflexive(a: Seq<Option<Seq<char>>>)
    ensures
        !parts_lt(a, a),
    decreases a.len(),
{
    if a.len() > 0 {
        lemma_parts_lt_irreflexive(a.drop_first());
    }
}

pub proof fn lemma_parts_lt_transitive(
    a: Seq<Option<Seq<char>>>,
    b: Seq<Option<Seq<char>>>,
    c: Seq<Option<Seq<char>>>,
)
    ensures
        parts_lt(a, b) && parts_lt(b, c) ==> parts_lt(a, c),
    decreases a.len(),
{
    if a.len() > 0 && b.len() > 0 && c.len() > 0 {
        lemma_parts_lt_transitive(a.drop_first(), b.drop_first(), c.drop_first());
        lemma_opt_lt_transitive(a[0], b[0], c[0]);
        if parts_lt(a, b) && parts_lt(b, c) {
            if a[0] != b[0] && b[0] == c[0] {
                assert(opt_lt(a[0], c[0]));
            }
            if a[0] == b[0] && b[0] != c[0] {
                assert(opt_lt(a[0], c[0]));
            }
            if a[0] != b[0] && b[0] != c[0] && a[0] == c[0] {
                lemma_opt_lt_irreflexive(a[0]);
            }
        }
    }
}

/// A record's position in a lexicographic order on optional texts.
pub struct TupleKey {
    pub parts: Vec<Option<String>>,
}

impl TupleKey {
    /// The key's parts as texts.
    pub open spec fn parts_view(self) -> Seq<Option<Seq<char>>> {
        self.parts@.map_values(|o: Option<String>| opt_view(o))
    }
}

fn opt_less(a: &Option<String>, b: &Option<String>) -> (r: bool)
    ensures
        r == opt_lt(opt_view(*a), opt_view(*b)),
{
    match (a, b) {
        (None, Some(_)) => true,
        (Some(x), Some(y)) => string_lt(x, y),
        _ => false,
    }
}

fn opt_same(a: &Option<String>, b: &Option<String>) -> (r: bool)
    ensures
        r == (opt_view(*a) == opt_view(*b)),
{
    match (a, b) {
        (None, None) => true,
        (Some(x), Some(y)) => crate::text::same_text(x.as_str(), y.as_str()),
        _ => false,
    }
}

impl SortKey for TupleKey {
    open spec fn key_lt(self, other: Self) -> bool {
        parts_lt(self.parts_view(), other.parts_view())
    }

    fn key_less(&self, other: &Self) -> (r: bool) {
        let ghost a = self.parts_view();
        let ghost b = other.parts_view();
        let n = self.parts.len();
        let m = other.parts.len();
        let mut i: usize = 0;
        assert(a.skip(0) =~= a);
        assert(b.skip(0) =~= b);
        while i < n && i < m
            invariant
                n == a.len(),
                m == b.len(),
                a == self.parts_view(),
                b == other.parts_view(),
                i <= n,
                i <= m,
                parts_lt(a, b) == parts_lt(a.skip(i as int), b.skip(i as int)),
            decreases n - i,
        {
            assert(a.skip(i as int)[0] == a[i as int]);
            assert(b.skip(i as int)[0] == b[i as int]);
            if !opt_same(&self.parts[i], &other.parts[i]) {
                return opt_less(&self.parts[i], &other.parts[i]);
            }
            assert(a.skip(i as int).drop_first() =~= a.skip(i + 1));
            assert(b.skip(i as int).drop_first() =~= b.skip(i + 1));
            i = i + 1;
        }
        i < m
    }

    proof fn lemma_key_lt_irreflexive(a: Self) {
        lemma_parts_lt_irreflexive(a.parts_view());
    }

    proof fn lemma_key_lt_transitive(a: Self, b: Self, c: Self) {
        lemma_parts_lt_transitive(a.parts_view(), b.parts_view(), c.parts_view());
    }

    proof fn lemma_key_lt_negative_transitive(a: Self, b: Self, c: Self) {
        lemma_parts_lt_negative_transitive(a.parts_view(), b.parts_view(), c.parts_view());
    }
}

} // verus!
