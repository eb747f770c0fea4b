//! The provider dependency map of the workspace: which providers a change
//! touches, and how a provider is named on the command line.
use vstd::prelude::*;

use crate::text::{
    chars_lt, contains_text, lemma_chars_lt_asymmetric, lemma_chars_lt_irreflexive,
    lemma_chars_lt_total, lemma_chars_lt_transitive, same_text, starts_with, string_lt,
    text_contains,
};

verus! {

/// How one provider is built and what it depends on.
#[derive(Debug, PartialEq, Eq)]
pub struct ProviderSpec {
    pub package: String,
    pub manifest_path: String,
    pub paths: Vec<String>,
    pub depends_on: Vec<String>,
}

/// A provider under its key in the map.
#[derive(Debug, PartialEq, Eq)]
pub struct ProviderEntry {
    pub key: String,
    pub spec: ProviderSpec,
}

/// A shared crate: the paths it owns and the providers it affects.
#[derive(Debug, PartialEq, Eq)]
pub struct SharedCrateSpec {
    pub paths: Vec<String>,
    pub affects: Vec<String>,
}

/// The provider dependency map. `providers` lists each provider once, in
/// key order.
#[derive(Debug, PartialEq, Eq)]
pub struct ProviderMap {
    pub providers: Vec<ProviderEntry>,
    pub shared_crates: Vec<SharedCrateSpec>,
    pub rebuild_all_paths: Vec<String>,
}

/// Texts in strictly increasing order.
pub open spec fn strictly_sorted(s: Seq<Seq<char>>) -> bool {
    forall|i: int, j: int| 0 <= i < j < s.len() ==> chars_lt(#[trigger] s[i], #[trigger] s[j])
}

/// The texts of some strings.
pub open spec fn texts(v: Seq<String>) -> Seq<Seq<char>> {
    v.map_values(|s: String| s@)
}

impl ProviderMap {
    /// The provider keys, in map order.
    pub open spec fn keys(self) -> Seq<Seq<char>> {
        self.providers@.map_values(|e: ProviderEntry| e.key@)
    }

    /// Provider keys are strictly increasing, as in an ordered map.
    pub open spec fn well_formed(self) -> bool {
        strictly_sorted(self.keys())
    }

    /// A provider has the key `k`.
    pub open spec fn has_key(self, k: Seq<char>) -> bool {
        self.keys().contains(k)
    }
}

/// `pattern` selects `path`: `prefix/**` selects the prefix itself and
/// everything below it; any other pattern selects exactly itself.
pub open spec fn pattern_matches(path: Seq<char>, pattern: Seq<char>) -> bool {
    if pattern.len() >= 3 && pattern.subrange(pattern.len() - 3, pattern.len() as int) == "/**"@ {
        let prefix = pattern.subrange(0, pattern.len() - 3);
        path == prefix || starts_with(path, prefix + "/"@)
    } else {
        path == pattern
    }
}

/// Some pattern selects `path`.
pub open spec fn any_pattern_matches(path: Seq<char>, patterns: Seq<String>) -> bool {
    exists|i: int| 0 <= i < patterns.len() && pattern_matches(path, (#[trigger] patterns[i])@)
}

/// Whether `pattern` selects `path`.
pub fn matches_pattern(path: &str, pattern: &str) -> (r: bool)
    ensures
        r == pattern_matches(path@, pattern@),
{
    proof {
        reveal_strlit("/**");
        reveal_strlit("/");
    }
    let pc = crate::text::chars_of(pattern);
    let n = pc.len();
    if n >= 3 && pc[n - 3] == '/' && pc[n - 2] == '*' && pc[n - 1] == '*' {
        assert(pattern@.subrange(n - 3, n as int) =~= "/**"@);
        let prefix = crate::text::string_of_range(pc.as_slice(), 0, n - 3);
        if same_text(path, prefix.as_str()) {
            return true;
        }
        let mut with_slash = prefix.clone();
        crate::text::push_char(&mut with_slash, '/');
        assert(with_slash@ =~= prefix@ + "/"@);
        let xs = crate::text::chars_of(path);
        let ys = crate::text::chars_of(with_slash.as_str());
        crate::text::chars_start_with(xs.as_slice(), ys.as_slice())
    } else {
        proof {
            if n >= 3 && pattern@.subrange(n - 3, n as int) == "/**"@ {
                assert(pattern@.subrange(n - 3, n as int)[0] == '/');
                assert(pattern@.subrange(n - 3, n as int)[1] == '*');
                assert(pattern@.subrange(n - 3, n as int)[2] == '*');
            }
        }
        same_text(path, pattern)
    }
}

/// Whether some pattern selects `path`.
pub fn matches_any(path: &str, patterns: &Vec<String>) -> (r: bool)
    ensures
        r == any_pattern_matches(path@, patterns@),
{
    let n = patterns.len();
    for i in 0..n
        invariant
            n == patterns@.len(),
            forall|j: int| 0 <= j < i ==> !pattern_matches(path@, (#[trigger] patterns@[j])@),
    {
        if matches_pattern(path, patterns[i].as_str()) {
            return true;
        }
    }
    false
}

/// Adds `x` to a strictly sorted list of texts, unless it is there.
fn insert_sorted_unique(v: &mut Vec<String>, x: String)
    requires
        strictly_sorted(texts(old(v)@)),
    ensures
        strictly_sorted(texts(final(v)@)),
        forall|t: Seq<char>| #[trigger] texts(final(v)@).contains(t) <==> (texts(old(v)@).contains(t) || t == x@),
{
    let ghost before = texts(v@);
    let n = v.len();
    let mut p: usize = 0;
    while p < n && string_lt(&v[p], &x)
        invariant
            n == v@.len(),
            p <= n,
            before == texts(v@),
            forall|k: int| 0 <= k < p ==> chars_lt(#[trigger] before[k], x@),
        decreases n - p,
    {
        p = p + 1;
    }
    if p < n && same_text(v[p].as_str(), x.as_str()) {
        assert(before[p as int] == x@);
        return;
    }
    proof {
        if p < n {
            lemma_chars_lt_total(before[p as int], x@);
        }
    }
    let ghost xv = x@;
    v.insert(p, x);
    proof {
        let after = texts(v@);
        assert(after =~= before.insert(p as int, xv));
        assert forall|i: int, j: int| 0 <= i < j < after.len() implies chars_lt(#[trigger] after[i], #[trigger] after[j]) by {
            if j < p {
                assert(after[i] == before[i] && after[j] == before[j]);
            } else if j == p {
                assert(after[i] == before[i]);
            } else if i == p {
                assert(after[j] == before[j - 1]);
                if j - 1 > p {
                    assert(chars_lt(before[p as int], before[j - 1]));
                    lemma_chars_lt_transitive(xv, before[p as int], before[j - 1]);
                }
            } else if i < p {
                assert(after[i] == before[i] && after[j] == before[j - 1]);
            } else {
                assert(after[i] == before[i - 1] && after[j] == before[j - 1]);
            }
        }
        assert forall|t: Seq<char>| #[trigger] after.contains(t) <==> (before.contains(t) || t == xv) by {
            if after.contains(t) {
                let k = choose|k: int| 0 <= k < after.len() && after[k] == t;
                if k < p {
                    assert(before[k] == t);
                } else if k > p {
                    assert(before[k - 1] == t);
                }
            }
            if before.contains(t) {
                let k = choose|k: int| 0 <= k < before.len() && before[k] == t;
                if k < p {
                    assert(after[k] == t);
                } else {
                    assert(after[k + 1] == t);
                }
            }
            if t == xv {
                assert(after[p as int] == t);
            }
        }
    }
}

/// Every provider must be rebuilt: no change is known, or a change touches a
/// rebuild-all path.
pub open spec fn rebuilds_all(map: ProviderMap, changed: Seq<String>) -> bool {
    changed.len() == 0 || exists|p: int| 0 <= p < changed.len() && any_pattern_matches((#[trigger] changed[p])@, map.rebuild_all_paths@)
}

/// `name` is selected by a change: a changed path belongs to the provider of
/// that key, or to a shared crate that affects `name`.
pub open spec fn selected_by_change(map: ProviderMap, changed: Seq<String>, name: Seq<char>) -> bool {
    ||| exists|p: int, e: int|
        0 <= p < changed.len() && 0 <= e < map.providers@.len() && (#[trigger] map.providers@[e]).key@ == name
            && any_pattern_matches((#[trigger] changed[p])@, map.providers@[e].spec.paths@)
    ||| exists|p: int, s: int, a: int|
        0 <= p < changed.len() && 0 <= s < map.shared_crates@.len() && 0 <= a < map.shared_crates@[s].affects@.len()
            && any_pattern_matches((#[trigger] changed[p])@, (#[trigger] map.shared_crates@[s]).paths@)
            && (#[trigger] map.shared_crates@[s].affects@[a])@ == name
}

/// The providers to rebuild for a list of changed paths, in name order:
/// every provider when no change is known or a rebuild-all path changed, else
/// the providers and shared-crate dependents the changes touch.
pub fn detect_changed_providers(map: &ProviderMap, changed_files: &Vec<String>) -> (selected: Vec<String>)
    ensures
        strictly_sorted(texts(selected@)),
        forall|name: Seq<char>| #[trigger] texts(selected@).contains(name) <==> (if rebuilds_all(*map, changed_files@) {
            map.has_key(name)
        } else {
            selected_by_change(*map, changed_files@, name)
        }),
{
    let mut selected: Vec<String> = Vec::new();
    let nc = changed_files.len();
    let mut rebuild = nc == 0;
    let mut q: usize = 0;
    while q < nc && !rebuild
        invariant
            nc == changed_files@.len(),
            q <= nc,
            rebuild == (nc == 0 || exists|p: int| 0 <= p < q && any_pattern_matches((#[trigger] changed_files@[p])@, map.rebuild_all_paths@)),
        decreases nc - q,
    {
        if matches_any(changed_files[q].as_str(), &map.rebuild_all_paths) {
            rebuild = true;
        }
        q = q + 1;
    }
    assert(rebuild == rebuilds_all(*map, changed_files@));
    assert(texts(selected@) =~= Seq::<Seq<char>>::empty());
    if rebuild {
        let np = map.providers.len();
        for e in 0..np
            invariant
                np == map.providers@.len(),
                strictly_sorted(texts(selected@)),
                forall|name: Seq<char>| #[trigger] texts(selected@).contains(name) <==> exists|k: int| 0 <= k < e && (#[trigger] map.providers@[k]).key@ == name,
        {
            insert_sorted_unique(&mut selected, map.providers[e].key.clone());
            proof {
                assert forall|name: Seq<char>| #[trigger] texts(selected@).contains(name) <==> exists|k: int| 0 <= k < e + 1 && (#[trigger] map.providers@[k]).key@ == name by {
                    if name == map.providers@[e as int].key@ {
                        assert(map.providers@[e as int].key@ == name);
                    }
                }
            }
        }
        proof {
            assert forall|name: Seq<char>| #[trigger] texts(selected@).contains(name) <==> map.has_key(name) by {
                if map.has_key(name) {
                    let k = choose|k: int| 0 <= k < map.keys().len() && map.keys()[k] == name;
                    assert(map.providers@[k].key@ == name);
                }
                if texts(selected@).contains(name) {
                    let k = choose|k: int| 0 <= k < np && (#[trigger] map.providers@[k]).key@ == name;
                    assert(map.keys()[k] == name);
                }
            }
        }
        return selected;
    }
    for p in 0..nc
        invariant
            nc == changed_files@.len(),
            strictly_sorted(texts(selected@)),
            forall|name: Seq<char>| #[trigger] texts(selected@).contains(name) <==> selected_by_change(*map, changed_files@.take(p as int), name),
    {
        let path = changed_files[p].as_str();
        let ghost before = texts(selected@);
        let np = map.providers.len();
        for e in 0..np
            invariant
                np == map.providers@.len(),
                nc == changed_files@.len(),
                p < nc,
                path@ == changed_files@[p as int]@,
                strictly_sorted(texts(selected@)),
                forall|name: Seq<char>| #[trigger] texts(selected@).contains(name) <==> (before.contains(name) || exists|k: int| 0 <= k < e && (#[trigger] map.providers@[k]).key@ == name && any_pattern_matches(path@, map.providers@[k].spec.paths@)),
        {
            if matches_any(path, &map.providers[e].spec.paths) {
                insert_sorted_unique(&mut selected, map.providers[e].key.clone());
            }
            proof {
                assert forall|name: Seq<char>| #[trigger] texts(selected@).contains(name) <==> (before.contains(name) || exists|k: int| 0 <= k < e + 1 && (#[trigger] map.providers@[k]).key@ == name && any_pattern_matches(path@, map.providers@[k].spec.paths@)) by {
                    if name == map.providers@[e as int].key@ && any_pattern_matches(path@, map.providers@[e as int].spec.paths@) {
                        assert(map.providers@[e as int].key@ == name);
                    }
                }
            }
        }
        let ghost mid = texts(selected@);
        let ns = map.shared_crates.len();
        for s in 0..ns
            invariant
                ns == map.shared_crates@.len(),
                nc == changed_files@.len(),
                p < nc,
                path@ == changed_files@[p as int]@,
                strictly_sorted(texts(selected@)),
                forall|name: Seq<char>| #[trigger] texts(selected@).contains(name) <==> (mid.contains(name) || exists|k: int, a: int| 0 <= k < s && 0 <= a < map.shared_crates@[k].affects@.len() && any_pattern_matches(path@, (#[trigger] map.shared_crates@[k]).paths@) && (#[trigger] map.shared_crates@[k].affects@[a])@ == name),
        {
            if matches_any(path, &map.shared_crates[s].paths) {
                let na = map.shared_crates[s].affects.len();
                let ghost mid2 = texts(selected@);
                for a in 0..na
                    invariant
                        na == map.shared_crates@[s as int].affects@.len(),
                        s < ns,
                        ns == map.shared_crates@.len(),
                        strictly_sorted(texts(selected@)),
                        forall|name: Seq<char>| #[trigger] texts(selected@).contains(name) <==> (mid2.contains(name) || exists|b: int| 0 <= b < a && (#[trigger] map.shared_crates@[s as int].affects@[b])@ == name),
                {
                    insert_sorted_unique(&mut selected, map.shared_crates[s].affects[a].clone());
                    proof {
                        assert forall|name: Seq<char>| #[trigger] texts(selected@).contains(name) <==> (mid2.contains(name) || exists|b: int| 0 <= b < a + 1 && (#[trigger] map.shared_crates@[s as int].affects@[b])@ == name) by {
                            if name == map.shared_crates@[s as int].affects@[a as int]@ {
                                assert(map.shared_crates@[s as int].affects@[a as int]@ == name);
                            }
                        }
                    }
                }
                proof {
                    assert forall|name: Seq<char>| #[trigger] texts(selected@).contains(name) <==> (mid.contains(name) || exists|k: int, b: int| 0 <= k < s + 1 && 0 <= b < map.shared_crates@[k].affects@.len() && any_pattern_matches(path@, (#[trigger] map.shared_crates@[k]).paths@) && (#[trigger] map.shared_crates@[k].affects@[b])@ == name) by {
                        if texts(selected@).contains(name) && !mid2.contains(name) {
                            let b = choose|b: int| 0 <= b < na && (#[trigger] map.shared_crates@[s as int].affects@[b])@ == name;
                            assert(map.shared_crates@[s as int].affects@[b]@ == name);
                        }
                        if exists|k: int, b: int| 0 <= k < s + 1 && 0 <= b < map.shared_crates@[k].affects@.len() && any_pattern_matches(path@, (#[trigger] map.shared_crates@[k]).paths@) && (#[trigger] map.shared_crates@[k].affects@[b])@ == name {
                            let (k, b) = choose|k: int, b: int| 0 <= k < s + 1 && 0 <= b < map.shared_crates@[k].affects@.len() && any_pattern_matches(path@, (#[trigger] map.shared_crates@[k]).paths@) && (#[trigger] map.shared_crates@[k].affects@[b])@ == name;
                            if k == s {
                                assert(map.shared_crates@[s as int].affects@[b]@ == name);
                            }
                        }
                    }
                }
            } else {
                proof {
                    assert forall|name: Seq<char>| #[trigger] texts(selected@).contains(name) <==> (mid.contains(name) || exists|k: int, b: int| 0 <= k < s + 1 && 0 <= b < map.shared_crates@[k].affects@.len() && any_pattern_matches(path@, (#[trigger] map.shared_crates@[k]).paths@) && (#[trigger] map.shared_crates@[k].affects@[b])@ == name) by {
                        if exists|k: int, b: int| 0 <= k < s + 1 && 0 <= b < map.shared_crates@[k].affects@.len() && any_pattern_matches(path@, (#[trigger] map.shared_crates@[k]).paths@) && (#[trigger] map.shared_crates@[k].affects@[b])@ == name {
                            let (k, b) = choose|k: int, b: int| 0 <= k < s + 1 && 0 <= b < map.shared_crates@[k].affects@.len() && any_pattern_matches(path@, (#[trigger] map.shared_crates@[k]).paths@) && (#[trigger] map.shared_crates@[k].affects@[b])@ == name;
                            assert(k != s);
                        }
                    }
                }
            }
        }
        proof {
            let cur = changed_files@.take(p + 1);
            let prev = changed_files@.take(p as int);
            assert forall|name: Seq<char>| #[trigger] texts(selected@).contains(name) <==> selected_by_change(*map, cur, name) by {
                if selected_by_change(*map, prev, name) {
                    if exists|q: int, e: int| 0 <= q < prev.len() && 0 <= e < map.providers@.len() && (#[trigger] map.providers@[e]).key@ == name && any_pattern_matches((#[trigger] prev[q])@, map.providers@[e].spec.paths@) {
                        let (q, e) = choose|q: int, e: int| 0 <= q < prev.len() && 0 <= e < map.providers@.len() && (#[trigger] map.providers@[e]).key@ == name && any_pattern_matches((#[trigger] prev[q])@, map.providers@[e].spec.paths@);
                        assert(cur[q] == prev[q]);
                    } else {
                        let (q, s, a) = choose|q: int, s: int, a: int| 0 <= q < prev.len() && 0 <= s < map.shared_crates@.len() && 0 <= a < map.shared_crates@[s].affects@.len() && any_pattern_matches((#[trigger] prev[q])@, (#[trigger] map.shared_crates@[s]).paths@) && (#[trigger] map.shared_crates@[s].affects@[a])@ == name;
                        assert(cur[q] == prev[q]);
                    }
                }
                if selected_by_change(*map, cur, name) {
                    if exists|q: int, e: int| 0 <= q < cur.len() && 0 <= e < map.providers@.len() && (#[trigger] map.providers@[e]).key@ == name && any_pattern_matches((#[trigger] cur[q])@, map.providers@[e].spec.paths@) {
                        let (q, e) = choose|q: int, e: int| 0 <= q < cur.len() && 0 <= e < map.providers@.len() && (#[trigger] map.providers@[e]).key@ == name && any_pattern_matches((#[trigger] cur[q])@, map.providers@[e].spec.paths@);
                        if q < p {
                            assert(prev[q] == cur[q]);
                        } else {
                            assert(cur[q]@ == path@);
                        }
                    } else {
                        let (q, s, a) = choose|q: int, s: int, a: int| 0 <= q < cur.len() && 0 <= s < map.shared_crates@.len() && 0 <= a < map.shared_crates@[s].affects@.len() && any_pattern_matches((#[trigger] cur[q])@, (#[trigger] map.shared_crates@[s]).paths@) && (#[trigger] map.shared_crates@[s].affects@[a])@ == name;
                        if q < p {
                            assert(prev[q] == cur[q]);
                        } else {
                            assert(cur[q]@ == path@);
                        }
                    }
                }
                if texts(selected@).contains(name) && !mid.contains(name) {
                    let (k, b) = choose|k: int, b: int| 0 <= k < ns && 0 <= b < map.shared_crates@[k].affects@.len() && any_pattern_matches(path@, (#[trigger] map.shared_crates@[k]).paths@) && (#[trigger] map.shared_crates@[k].affects@[b])@ == name;
                    assert(cur[p as int] == changed_files@[p as int]);
                }
                if mid.contains(name) && !before.contains(name) {
                    let k = choose|k: int| 0 <= k < np && (#[trigger] map.providers@[k]).key@ == name && any_pattern_matches(path@, map.providers@[k].spec.paths@);
                    assert(cur[p as int] == changed_files@[p as int]);
                }
            }
        }
    }
    assert(changed_files@.take(nc as int) =~= changed_files@);
    selected
}

/// `provider` without a leading `provider-`.
pub open spec fn without_provider_prefix(provider: Seq<char>) -> Seq<char> {
    if starts_with(provider, "provider-"@) {
        provider.skip(9)
    } else {
        provider
    }
}

/// A name without a leading `provider-`.
pub(crate) fn strip_provider_prefix(provider: &str) -> (out: String)
    ensures
        out@ == without_provider_prefix(provider@),
{
    proof {
        reveal_strlit("provider-");
    }
    let pc = crate::text::chars_of(provider);
    let prefix = crate::text::chars_of("provider-");
    let stripped = if crate::text::chars_start_with(pc.as_slice(), prefix.as_slice()) {
        crate::text::string_of_range(pc.as_slice(), 9, pc.len())
    } else {
        crate::text::owned(provider)
    };
    assert(stripped@ == without_provider_prefix(provider@)) by {
        if starts_with(provider@, "provider-"@) {
            assert(provider@.subrange(9, provider@.len() as int) =~= provider@.skip(9));
        }
    }
    stripped
}

/// The entry is named by `provider`: it is the entry's package, or occurs in
/// its manifest path.
pub open spec fn names_entry(e: ProviderEntry, provider: Seq<char>) -> bool {
    e.spec.package@ == provider || contains_text(e.spec.manifest_path@, provider)
}

/// The key of the first entry, from index `i` on, that `provider` names.
pub open spec fn first_named_key(s: Seq<ProviderEntry>, provider: Seq<char>, i: int) -> Option<Seq<char>>
    decreases s.len() - i,
{
    if i < 0 || i >= s.len() {
        None
    } else if names_entry(s[i], provider) {
        Some(s[i].key@)
    } else {
        first_named_key(s, provider, i + 1)
    }
}

/// The provider key that a command-line name stands for: the name itself when
/// it is a key, else the name without `provider-` when that is a key, else the
/// key of the first provider (in key order) whose package is the name or whose
/// manifest path contains it.
pub open spec fn canonical_key(map: ProviderMap, provider: Seq<char>) -> Option<Seq<char>> {
    if map.has_key(provider) {
        Some(provider)
    } else if map.has_key(without_provider_prefix(provider)) {
        Some(without_provider_prefix(provider))
    } else {
        first_named_key(map.providers@, provider, 0)
    }
}

/// The error for a name that stands for no provider.
pub open spec fn unknown_provider_message(provider: Seq<char>) -> Seq<char> {
    "unknown provider: "@ + provider
}

pub(crate) fn key_index(map: &ProviderMap, k: &str) -> (r: Option<usize>)
    ensures
        match r {
            Some(i) => i < map.providers@.len() && map.providers@[i as int].key@ == k@
                && forall|j: int| 0 <= j < i ==> (#[trigger] map.providers@[j]).key@ != k@,
            None => !map.has_key(k@),
        },
{
    let n = map.providers.len();
    for i in 0..n
        invariant
            n == map.providers@.len(),
            forall|j: int| 0 <= j < i ==> (#[trigger] map.providers@[j]).key@ != k@,
    {
        if same_text(map.providers[i].key.as_str(), k) {
            return Some(i);
        }
    }
    proof {
        if map.has_key(k@) {
            let j = choose|j: int| 0 <= j < map.keys().len() && map.keys()[j] == k@;
            assert(map.providers@[j].key@ == k@);
        }
    }
    None
}

proof fn lemma_first_named_key_step(s: Seq<ProviderEntry>, provider: Seq<char>, i: int)
    requires
        0 <= i < s.len(),
        !names_entry(s[i], provider),
    ensures
        first_named_key(s, provider, i) == first_named_key(s, provider, i + 1),
{
}

proof fn lemma_first_named_key_none(s: Seq<ProviderEntry>, provider: Seq<char>, i: int)
    requires
        0 <= i <= s.len(),
        forall|j: int| i <= j < s.len() ==> !names_entry(#[trigger] s[j], provider),
    ensures
        first_named_key(s, provider, i) is None,
    decreases s.len() - i,
{
    if i < s.len() {
        lemma_first_named_key_none(s, provider, i + 1);
    }
}

/// The provider key that a command-line name stands for, or
/// `unknown provider: <name>`.
pub fn canonical_provider_key(map: &ProviderMap, provider: &str) -> (r: Result<String, String>)
    ensures
        match canonical_key(*map, provider@) {
            Some(k) => r matches Ok(s) && s@ == k,
            None => r matches Err(e) && e@ == unknown_provider_message(provider@),
        },
{
    if let Some(i) = key_index(map, provider) {
        assert(map.keys()[i as int] == provider@);
        return Ok(crate::text::owned(provider));
    }
    let stripped = strip_provider_prefix(provider);
    if let Some(i) = key_index(map, stripped.as_str()) {
        assert(map.keys()[i as int] == stripped@);
        return Ok(stripped);
    }
    let n = map.providers.len();
    for i in 0..n
        invariant
            n == map.providers@.len(),
            !map.has_key(provider@),
            !map.has_key(without_provider_prefix(provider@)),
            first_named_key(map.providers@, provider@, 0) == first_named_key(map.providers@, provider@, i as int),
    {
        let e = &map.providers[i];
        if same_text(e.spec.package.as_str(), provider) || crate::text::text_contains(e.spec.manifest_path.as_str(), provider) {
            let k = crate::text::owned(e.key.as_str());
            assert(names_entry(map.providers@[i as int], provider@));
            assert(first_named_key(map.providers@, provider@, i as int) == Some(map.providers@[i as int].key@));
            return Ok(k);
        }
        proof {
            lemma_first_named_key_step(map.providers@, provider@, i as int);
        }
    }
    let mut msg = crate::text::owned("unknown provider: ");
    crate::text::push_str(&mut msg, provider);
    proof {
        reveal_strlit("unknown provider: ");
    }
    Err(msg)
}

/// `i` is the first position of key `k` in the map.
pub open spec fn first_key_index(map: ProviderMap, k: Seq<char>, i: int) -> bool {
    &&& 0 <= i < map.providers@.len()
    &&& map.providers@[i].key@ == k
    &&& forall|j: int| 0 <= j < i ==> (#[trigger] map.providers@[j]).key@ != k
}

/// The spec of the provider that a command-line name stands for, or
/// `unknown provider: <name>`.
pub fn find_provider<'a>(map: &'a ProviderMap, provider: &str) -> (r: Result<&'a ProviderSpec, String>)
    ensures
        match canonical_key(*map, provider@) {
            Some(k) => r matches Ok(sp) && exists|i: int| first_key_index(*map, k, i) && *sp == map.providers@[i].spec,
            None => r matches Err(e) && e@ == unknown_provider_message(provider@),
        },
{
    let key = canonical_provider_key(map, provider)?;
    match key_index(map, key.as_str()) {
        Some(i) => {
            assert(first_key_index(*map, key@, i as int));
            Ok(&map.providers[i].spec)
        },
        None => {
            proof {
                lemma_canonical_key_is_key(*map, provider@);
            }
            let mut msg = crate::text::owned("unknown provider: ");
            crate::text::push_str(&mut msg, provider);
            proof {
                reveal_strlit("unknown provider: ");
            }
            Err(msg)
        },
    }
}

proof fn lemma_first_named_key_is_key(s: Seq<ProviderEntry>, provider: Seq<char>, i: int)
    requires
        first_named_key(s, provider, i) is Some,
    ensures
        exists|j: int| 0 <= j < s.len() && (#[trigger] s[j]).key@ == first_named_key(s, provider, i)->0,
    decreases s.len() - i,
{
    if 0 <= i < s.len() && !names_entry(s[i], provider) {
        lemma_first_named_key_is_key(s, provider, i + 1);
    } else {
        assert(s[i].key@ == first_named_key(s, provider, i)->0);
    }
}

/// The key that a name stands for is a key of the map.
pub proof fn lemma_canonical_key_is_key(map: ProviderMap, provider: Seq<char>)
    ensures
        canonical_key(map, provider) matches Some(k) ==> map.has_key(k),
{
    if !map.has_key(provider) && !map.has_key(without_provider_prefix(provider)) {
        if first_named_key(map.providers@, provider, 0) is Some {
            lemma_first_named_key_is_key(map.providers@, provider, 0);
            let j = choose|j: int| 0 <= j < map.providers@.len() && (#[trigger] map.providers@[j]).key@ == first_named_key(map.providers@, provider, 0)->0;
            assert(map.keys()[j] == map.providers@[j].key@);
        }
    }
}

} // verus!
