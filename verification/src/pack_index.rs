//! Which provider packs the pack generator writes, the index entry it
//! records for each, and the arguments of the pack and catalog generators.
use vstd::prelude::*;

use crate::fdb_provider::{is_fdb_pack_manifest, FDB_PROVIDER_ID};
use crate::pack::{provider_slug, provider_slug_text, GeneratedPackLayout, ProviderPackManifest};
use crate::provider_map::without_provider_prefix;
use crate::rag::{is_rag_pack_manifest, RAG_PROVIDER_ID};
use crate::sharepoint::{is_sharepoint_pack_manifest, SHAREPOINT_PROVIDER_ID};
use crate::sort::{is_sorted, sort_by_key, SortKey};
use crate::text::{chars_lt, owned, same_text};

verus! {

broadcast use vstd::seq_lib::group_to_multiset_ensures;

/// One line of the generated pack index.
#[derive(Debug, PartialEq, Eq)]
pub struct GeneratedPackIndexEntry {
    pub provider_id: String,
    pub provider_version: String,
    pub provider_slug: String,
    pub manifest_path: String,
    pub artifact_path: String,
    pub schema_path: String,
    pub oci_reference: Option<String>,
}

/// The text of an optional string.
pub open spec fn opt_view(o: Option<String>) -> Option<Seq<char>> {
    match o {
        Some(s) => Some(s@),
        None => None,
    }
}

/// The index entry of a pack written at `layout`.
pub fn index_entry(layout: &GeneratedPackLayout, manifest: &ProviderPackManifest) -> (e: GeneratedPackIndexEntry)
    ensures
        e.provider_id@ == manifest.provider_id@,
        e.provider_version@ == manifest.provider_version@,
        e.provider_slug@ == provider_slug_text(manifest.provider_id@),
        e.manifest_path@ == layout.manifest_path@,
        e.artifact_path@ == layout.artifact_path@,
        e.schema_path@ == layout.schema_path@,
        opt_view(e.oci_reference) == opt_view(manifest.oci_reference),
{
    GeneratedPackIndexEntry {
        provider_id: owned(manifest.provider_id.as_str()),
        provider_version: owned(manifest.provider_version.as_str()),
        provider_slug: provider_slug(manifest.provider_id.as_str()),
        manifest_path: owned(layout.manifest_path.as_str()),
        artifact_path: owned(layout.artifact_path.as_str()),
        schema_path: owned(layout.schema_path.as_str()),
        oci_reference: match &manifest.oci_reference {
            Some(r) => Some(owned(r.as_str())),
            None => None,
        },
    }
}

/// A provider ID is chosen by the name `selected`: the name is `all`, the
/// ID, the ID's slug, or the slug once a leading `provider-` is dropped.
pub open spec fn provider_id_selected(provider_id: Seq<char>, selected: Seq<char>) -> bool {
    ||| selected == "all"@
    ||| selected == provider_id
    ||| selected == provider_slug_text(provider_id)
    ||| without_provider_prefix(selected) == provider_slug_text(provider_id)
}

/// A provider ID is chosen by an optional name; no name chooses every one.
pub open spec fn pack_selected(provider_id: Seq<char>, selected: Option<Seq<char>>) -> bool {
    match selected {
        Some(s) => provider_id_selected(provider_id, s),
        None => true,
    }
}

/// The text of an optional string slice.
pub open spec fn opt_str(o: Option<&str>) -> Option<Seq<char>> {
    match o {
        Some(s) => Some(s@),
        None => None,
    }
}

/// Whether the name `selected` chooses the manifest's provider.
fn provider_matches(manifest: &ProviderPackManifest, selected: &str) -> (r: bool)
    ensures
        r == provider_id_selected(manifest.provider_id@, selected@),
{
    proof {
        reveal_strlit("all");
    }
    let slug = provider_slug(manifest.provider_id.as_str());
    let stripped = crate::provider_map::strip_provider_prefix(selected);
    same_text(selected, "all") || same_text(selected, manifest.provider_id.as_str()) || same_text(
        selected,
        slug.as_str(),
    ) || same_text(stripped.as_str(), slug.as_str())
}

impl SortKey for ProviderPackManifest {
    open spec fn key_lt(self, other: Self) -> bool {
        chars_lt(self.provider_id@, other.provider_id@)
    }

    fn key_less(&self, other: &Self) -> (r: bool) {
        crate::text::string_lt(&self.provider_id, &other.provider_id)
    }

    proof fn lemma_key_lt_irreflexive(a: Self) {
        crate::text::lemma_chars_lt_irreflexive(a.provider_id@);
    }

    proof fn lemma_key_lt_transitive(a: Self, b: Self, c: Self) {
        crate::text::lemma_chars_lt_transitive(a.provider_id@, b.provider_id@, c.provider_id@);
    }

    proof fn lemma_key_lt_negative_transitive(a: Self, b: Self, c: Self) {
        crate::text::lemma_chars_lt_negative_transitive(a.provider_id@, b.provider_id@, c.provider_id@);
    }
}

/// One of the three providers' pack manifests.
pub open spec fn is_known_pack_manifest(m: ProviderPackManifest) -> bool {
    is_fdb_pack_manifest(m) || is_sharepoint_pack_manifest(m) || is_rag_pack_manifest(m)
}

proof fn lemma_pack_manifest_ids(m: ProviderPackManifest)
    ensures
        is_fdb_pack_manifest(m) ==> m.provider_id@ == FDB_PROVIDER_ID@,
        is_sharepoint_pack_manifest(m) ==> m.provider_id@ == SHAREPOINT_PROVIDER_ID@,
        is_rag_pack_manifest(m) ==> m.provider_id@ == RAG_PROVIDER_ID@,
{
}

/// The pack manifests chosen by an optional provider name, ordered by
/// provider ID: each of the three providers' manifests whose ID the name
/// chooses, once.
pub fn manifests(provider: Option<&str>) -> (out: Vec<ProviderPackManifest>)
    ensures
        is_sorted(out@),
        forall|i: int| 0 <= i < out@.len() ==> is_known_pack_manifest(#[trigger] out@[i]) && pack_selected(out@[i].provider_id@, opt_str(provider)),
        pack_selected(FDB_PROVIDER_ID@, opt_str(provider)) ==> exists|i: int| 0 <= i < out@.len() && is_fdb_pack_manifest(#[trigger] out@[i]),
        pack_selected(SHAREPOINT_PROVIDER_ID@, opt_str(provider)) ==> exists|i: int| 0 <= i < out@.len() && is_sharepoint_pack_manifest(#[trigger] out@[i]),
        pack_selected(RAG_PROVIDER_ID@, opt_str(provider)) ==> exists|i: int| 0 <= i < out@.len() && is_rag_pack_manifest(#[trigger] out@[i]),
        out@.len() == (if pack_selected(FDB_PROVIDER_ID@, opt_str(provider)) { 1int } else { 0 })
            + (if pack_selected(SHAREPOINT_PROVIDER_ID@, opt_str(provider)) { 1int } else { 0 })
            + (if pack_selected(RAG_PROVIDER_ID@, opt_str(provider)) { 1int } else { 0 }),
{
    let all = provider_manifests();
    let mut chosen: Vec<ProviderPackManifest> = Vec::new();
    let mut rest = all;
    let rag = rest.pop().unwrap();
    let sharepoint = rest.pop().unwrap();
    let fdb = rest.pop().unwrap();
    proof {
        lemma_pack_manifest_ids(fdb);
        lemma_pack_manifest_ids(sharepoint);
        lemma_pack_manifest_ids(rag);
    }
    let keep_fdb = match provider {
        Some(sel) => provider_matches(&fdb, sel),
        None => true,
    };
    let keep_sharepoint = match provider {
        Some(sel) => provider_matches(&sharepoint, sel),
        None => true,
    };
    let keep_rag = match provider {
        Some(sel) => provider_matches(&rag, sel),
        None => true,
    };
    let ghost gf = fdb;
    let ghost gs = sharepoint;
    let ghost gr = rag;
    if keep_fdb {
        chosen.push(fdb);
    }
    let ghost at_s = chosen@.len();
    if keep_sharepoint {
        chosen.push(sharepoint);
    }
    let ghost at_r = chosen@.len();
    if keep_rag {
        chosen.push(rag);
    }
    proof {
        if keep_fdb {
            assert(chosen@[0] == gf);
        }
        if keep_sharepoint {
            assert(chosen@[at_s as int] == gs);
        }
        if keep_rag {
            assert(chosen@[at_r as int] == gr);
        }
        assert(keep_fdb ==> chosen@.contains(gf));
        assert(keep_sharepoint ==> chosen@.contains(gs));
        assert(keep_rag ==> chosen@.contains(gr));
        assert forall|x: ProviderPackManifest| chosen@.contains(x) implies is_known_pack_manifest(x) && pack_selected(x.provider_id@, opt_str(provider)) by {
            let k = choose|k: int| 0 <= k < chosen@.len() && chosen@[k] == x;
        }
    }
    let ghost before = chosen@;
    let out = sort_by_key(chosen);
    proof {
        assert forall|i: int| 0 <= i < out@.len() implies is_known_pack_manifest(#[trigger] out@[i]) && pack_selected(out@[i].provider_id@, opt_str(provider)) by {
            assert(out@.contains(out@[i]));
            assert(out@.to_multiset().count(out@[i]) > 0);
            assert(before.contains(out@[i]));
        }
        if keep_fdb {
            assert(before.to_multiset().count(gf) > 0);
            assert(out@.contains(gf));
        }
        if keep_sharepoint {
            assert(before.to_multiset().count(gs) > 0);
            assert(out@.contains(gs));
        }
        if keep_rag {
            assert(before.to_multiset().count(gr) > 0);
            assert(out@.contains(gr));
        }
    }
    out
}

/// The three providers' pack manifests.
fn provider_manifests() -> (out: Vec<ProviderPackManifest>)
    ensures
        out@.len() == 3,
        is_fdb_pack_manifest(out@[0]),
        is_sharepoint_pack_manifest(out@[1]),
        is_rag_pack_manifest(out@[2]),
{
    let mut out: Vec<ProviderPackManifest> = Vec::new();
    out.push(crate::fdb_provider::pack_manifest());
    out.push(crate::sharepoint::pack_manifest());
    out.push(crate::rag::pack_manifest());
    out
}

/// The arguments of the pack generator: the output directory and the
/// provider name, if one other than `all` is given.
#[derive(Debug, PartialEq, Eq)]
pub struct PackCliArgs {
    pub output_dir: String,
    pub provider: Option<String>,
}

/// The pack generator's arguments read from position `i` on: `--output-dir`
/// and `--provider` each take the next argument; a provider named `all`
/// leaves the choice as it was; any other argument is passed over.
pub open spec fn pack_args_from(args: Seq<Seq<char>>, i: int, output_dir: Seq<char>, provider: Option<Seq<char>>) -> (Seq<char>, Option<Seq<char>>)
    decreases args.len() - i,
{
    if i < 0 || i >= args.len() {
        (output_dir, provider)
    } else if args[i] == "--output-dir"@ && i + 1 < args.len() {
        pack_args_from(args, i + 2, args[i + 1], provider)
    } else if args[i] == "--provider"@ && i + 1 < args.len() {
        pack_args_from(args, i + 2, output_dir, if args[i + 1] != "all"@ { Some(args[i + 1]) } else { provider })
    } else {
        pack_args_from(args, i + 1, output_dir, provider)
    }
}

/// The pack generator's arguments; the output directory defaults to
/// `examples/generated-packs`.
pub fn parse_pack_cli_args(args: &Vec<String>) -> (r: PackCliArgs)
    ensures
        (r.output_dir@, opt_view(r.provider)) == pack_args_from(crate::provider_map::texts(args@), 0, "examples/generated-packs"@, None),
{
    proof {
        reveal_strlit("--output-dir");
        reveal_strlit("--provider");
        reveal_strlit("all");
    }
    let ghost a = crate::provider_map::texts(args@);
    let mut output_dir = owned("examples/generated-packs");
    let mut provider: Option<String> = None;
    let n = args.len();
    let mut i: usize = 0;
    while i < n
        invariant
            n == args@.len(),
            a == crate::provider_map::texts(args@),
            i <= n,
            pack_args_from(a, 0, "examples/generated-packs"@, None) == pack_args_from(a, i as int, output_dir@, opt_view(provider)),
        decreases n - i,
    {
        let arg = args[i].as_str();
        assert(a[i as int] == arg@);
        if same_text(arg, "--output-dir") && i + 1 < n {
            assert(a[i + 1] == args@[i + 1]@);
            output_dir = owned(args[i + 1].as_str());
            i = i + 2;
        } else if same_text(arg, "--provider") && i + 1 < n {
            assert(a[i + 1] == args@[i + 1]@);
            if !same_text(args[i + 1].as_str(), "all") {
                provider = Some(owned(args[i + 1].as_str()));
            }
            i = i + 2;
        } else {
            i = i + 1;
        }
    }
    PackCliArgs { output_dir, provider }
}

/// The value after the first occurrence of `flag` that has a value, from
/// position `i` on.
pub open spec fn flag_value_from(args: Seq<Seq<char>>, flag: Seq<char>, i: int) -> Option<Seq<char>>
    decreases args.len() - i,
{
    if i < 0 || i >= args.len() {
        None
    } else if args[i] == flag && i + 1 < args.len() {
        Some(args[i + 1])
    } else {
        flag_value_from(args, flag, i + 1)
    }
}

/// The value given after `flag`, or `default` when `flag` is not given with
/// a value.
pub fn arg_value(args: &Vec<String>, flag: &str, default: &str) -> (r: String)
    ensures
        r@ == match flag_value_from(crate::provider_map::texts(args@), flag@, 0) {
            Some(v) => v,
            None => default@,
        },
{
    let ghost a = crate::provider_map::texts(args@);
    let n = args.len();
    for i in 0..n
        invariant
            n == args@.len(),
            a == crate::provider_map::texts(args@),
            flag_value_from(a, flag@, 0) == flag_value_from(a, flag@, i as int),
    {
        assert(a[i as int] == args@[i as int]@);
        if same_text(args[i].as_str(), flag) && i + 1 < n {
            assert(a[i + 1] == args@[i + 1]@);
            return owned(args[i + 1].as_str());
        }
    }
    owned(default)
}

} // verus!
