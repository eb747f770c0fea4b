//! Canonical local pack manifests derived from provider metadata, and the
//! deterministic names, URIs and OCI references of generated pack artifacts.
use vstd::prelude::*;

use crate::text::{chars_of, chars_start_with, owned, push_char, push_str, string_of, starts_with};
use crate::types::{
    ProviderCapability, ProviderMetadata, ProviderOntologyCapabilities, ProviderStatus,
};

verus! {

/// Reference to a generated provider artifact.
#[derive(Debug, PartialEq, Eq)]
pub struct ArtifactReference {
    pub kind: String,
    pub uri: String,
}

impl Clone for ArtifactReference {
    fn clone(&self) -> (r: Self)
        ensures
            r == *self,
    {
        ArtifactReference { kind: self.kind.clone(), uri: self.uri.clone() }
    }
}

/// Runtime component required by a provider pack.
#[derive(Debug, PartialEq, Eq)]
pub struct RuntimeComponentRef {
    pub component_id: String,
    pub kind: String,
    pub entrypoint: String,
    pub artifact_uri: String,
}

impl Clone for RuntimeComponentRef {
    fn clone(&self) -> (r: Self)
        ensures
            r == *self,
    {
        RuntimeComponentRef {
            component_id: self.component_id.clone(),
            kind: self.kind.clone(),
            entrypoint: self.entrypoint.clone(),
            artifact_uri: self.artifact_uri.clone(),
        }
    }
}

/// Configuration schema reference shipped with a generated provider pack.
#[derive(Debug, PartialEq, Eq)]
pub struct ConfigSchemaRef {
    pub format: String,
    pub path: String,
    pub schema_json: String,
}

impl Clone for ConfigSchemaRef {
    fn clone(&self) -> (r: Self)
        ensures
            r == *self,
    {
        ConfigSchemaRef {
            format: self.format.clone(),
            path: self.path.clone(),
            schema_json: self.schema_json.clone(),
        }
    }
}

/// Human-facing metadata for discovery surfaces.
#[derive(Debug, Clone, PartialEq, Eq)]
pub struct DisplayMetadata {
    pub title: String,
    pub summary: String,
}

/// Canonical local pack manifest emitted from provider metadata.
#[derive(Debug, Clone, PartialEq, Eq)]
pub struct ProviderPackManifest {
    pub pack_format_version: String,
    pub provider_id: String,
    pub provider_version: String,
    pub provider_kind: String,
    pub capabilities: Vec<ProviderCapability>,
    pub is_mock: bool,
    pub status: ProviderStatus,
    pub supported_provider_contract_version: String,
    pub supported_sorla_ir: String,
    pub supported_sorla_ir_range: String,
    pub artifact_references: Vec<ArtifactReference>,
    pub runtime_components: Vec<RuntimeComponentRef>,
    pub config_schema: ConfigSchemaRef,
    pub oci_reference: Option<String>,
    pub display: DisplayMetadata,
    pub ontology_capabilities: Option<ProviderOntologyCapabilities>,
}

/// Serialized local gtpack artifact.
#[derive(Debug, Clone, PartialEq, Eq)]
pub struct GeneratedPackArtifact {
    pub artifact_format: String,
    pub manifest: ProviderPackManifest,
}

/// Result of writing a local provider pack layout: the written paths, each
/// as the text of the path.
#[derive(Debug, Clone, PartialEq, Eq)]
pub struct GeneratedPackLayout {
    pub pack_dir: String,
    pub manifest_path: String,
    pub artifact_path: String,
    pub schema_path: String,
}

/// Two optional ontology capability sections carry the same content.
pub open spec fn same_ontology(
    a: Option<ProviderOntologyCapabilities>,
    b: Option<ProviderOntologyCapabilities>,
) -> bool {
    match (a, b) {
        (None, None) => true,
        (Some(x), Some(y)) => x.same(y),
        _ => false,
    }
}

fn clone_ontology(o: &Option<ProviderOntologyCapabilities>) -> (r: Option<
    ProviderOntologyCapabilities,
>)
    ensures
        same_ontology(r, *o),
{
    match o {
        Some(x) => Some(x.clone()),
        None => None,
    }
}

/// An ASCII letter or digit.
pub open spec fn is_ascii_alphanumeric(c: char) -> bool {
    ('a' <= c <= 'z') || ('A' <= c <= 'Z') || ('0' <= c <= '9')
}

/// ASCII upper-case letters become lower case; every other character stays.
pub open spec fn ascii_lower(c: char) -> char {
    if 'A' <= c <= 'Z' {
        ((c as u32) + 32) as char
    } else {
        c
    }
}

/// The package directory character for `c`: lower-cased ASCII letters and
/// digits, `-` for everything else.
pub open spec fn package_dir_char(c: char) -> char {
    if is_ascii_alphanumeric(c) {
        ascii_lower(c)
    } else {
        '-'
    }
}

/// The package directory name of a provider ID.
pub open spec fn package_dir_text(provider_id: Seq<char>) -> Seq<char> {
    provider_id.map_values(|c: char| package_dir_char(c))
}

/// The text after the last `.` (the whole text when there is none).
pub open spec fn after_last_dot(s: Seq<char>) -> Seq<char>
    decreases s.len(),
{
    if s.len() == 0 {
        s
    } else if s.last() == '.' {
        seq![]
    } else {
        after_last_dot(s.drop_last()).push(s.last())
    }
}

/// `s` with every leading repetition of the non-empty pattern `p` removed.
pub open spec fn trim_start_repeated(s: Seq<char>, p: Seq<char>) -> Seq<char>
    decreases s.len(),
{
    if p.len() > 0 && starts_with(s, p) {
        trim_start_repeated(s.skip(p.len() as int), p)
    } else {
        s
    }
}

/// The provider slug: the last `.`-separated part of the ID, stripped of
/// leading `provider-` prefixes, ASCII-lower-cased.
pub open spec fn provider_slug_text(provider_id: Seq<char>) -> Seq<char> {
    trim_start_repeated(after_last_dot(provider_id), "provider-"@).map_values(
        |c: char| ascii_lower(c),
    )
}

fn ascii_lower_char(c: char) -> (r: char)
    ensures
        r == ascii_lower(c),
{
    if c >= 'A' && c <= 'Z' {
        ((c as u8) + 32) as char
    } else {
        c
    }
}

fn package_dir_char_exec(c: char) -> (r: char)
    ensures
        r == package_dir_char(c),
{
    if (c >= 'a' && c <= 'z') || (c >= 'A' && c <= 'Z') || (c >= '0' && c <= '9') {
        ascii_lower_char(c)
    } else {
        '-'
    }
}

fn provider_id_to_package_dir(provider_id: &str) -> (out: String)
    ensures
        out@ == package_dir_text(provider_id@),
{
    let cs = chars_of(provider_id);
    let mut out = String::new();
    let n = cs.len();
    for i in 0..n
        invariant
            n == cs@.len(),
            cs@ == provider_id@,
            out@ == package_dir_text(cs@.take(i as int)),
    {
        push_char(&mut out, package_dir_char_exec(cs[i]));
        assert(package_dir_text(cs@.take(i + 1)) =~= package_dir_text(cs@.take(i as int)).push(
            package_dir_char(cs@[i as int]),
        ));
    }
    assert(cs@.take(n as int) =~= cs@);
    out
}

proof fn lemma_after_last_dot_split(s: Seq<char>, k: int)
    requires
        0 <= k <= s.len(),
        forall|j: int| k <= j < s.len() ==> s[j] != '.',
    ensures
        after_last_dot(s) == after_last_dot(s.take(k)) + s.skip(k),
    decreases s.len() - k,
{
    if k < s.len() {
        lemma_after_last_dot_split(s, k + 1);
        assert(s.take(k + 1).drop_last() =~= s.take(k));
        assert(s.take(k + 1).last() == s[k]);
        assert(s.skip(k) =~= seq![s[k]] + s.skip(k + 1));
        assert(after_last_dot(s.take(k + 1)) == after_last_dot(s.take(k)).push(s[k]));
        assert(after_last_dot(s.take(k)).push(s[k]) + s.skip(k + 1) =~= after_last_dot(s.take(k))
            + s.skip(k));
    } else {
        assert(s.take(k) =~= s);
        assert(s.skip(k) =~= Seq::<char>::empty());
        assert(after_last_dot(s) + Seq::<char>::empty() =~= after_last_dot(s));
    }
}

/// Slug of a provider ID: the segment after the last `.`, with leading
/// `provider-` prefixes removed, lower-cased (ASCII).
pub fn provider_slug(provider_id: &str) -> (out: String)
    ensures
        out@ == provider_slug_text(provider_id@),
{
    let cs = chars_of(provider_id);
    let mut start = cs.len();
    while start > 0 && cs[start - 1] != '.'
        invariant
            start <= cs@.len(),
            cs@ == provider_id@,
            forall|j: int| start <= j < cs@.len() ==> cs@[j] != '.',
        decreases start,
    {
        start = start - 1;
    }
    proof {
        lemma_after_last_dot_split(cs@, start as int);
        if start > 0 {
            assert(cs@.take(start as int).last() == '.');
        } else {
            assert(cs@.take(0) =~= Seq::<char>::empty());
        }
        assert(after_last_dot(cs@) =~= cs@.skip(start as int));
    }
    let prefix = chars_of("provider-");
    proof {
        reveal_strlit("provider-");
    }
    let mut rest: Vec<char> = Vec::new();
    let mut i = start;
    while i < cs.len()
        invariant
            start <= i <= cs@.len(),
            rest@ == cs@.subrange(start as int, i as int),
        decreases cs.len() - i,
    {
        rest.push(cs[i]);
        i = i + 1;
        assert(rest@ =~= cs@.subrange(start as int, i as int));
    }
    assert(rest@ =~= cs@.skip(start as int));
    let mut offset: usize = 0;
    let ghost target = trim_start_repeated(rest@, prefix@);
    assert(rest@.skip(0) =~= rest@);
    loop
        invariant
            offset <= rest@.len(),
            prefix@ == "provider-"@,
            prefix@.len() == 9,
            trim_start_repeated(rest@.skip(offset as int), prefix@) == target,
        ensures
            offset <= rest@.len(),
            trim_start_repeated(rest@.skip(offset as int), prefix@) == target,
            !starts_with(rest@.skip(offset as int), prefix@),
        decreases rest.len() - offset,
    {
        let tail = vstd::slice::slice_subrange(rest.as_slice(), offset, rest.len());
        assert(tail@ =~= rest@.skip(offset as int));
        if chars_start_with(tail, prefix.as_slice()) {
            assert(rest@.skip(offset as int).skip(9) =~= rest@.skip(offset + 9));
            offset = offset + 9;
        } else {
            break;
        }
    }
    let mut out = String::new();
    let mut j = offset;
    while j < rest.len()
        invariant
            offset <= j <= rest@.len(),
            trim_start_repeated(rest@.skip(offset as int), prefix@) == target,
            !starts_with(rest@.skip(offset as int), prefix@),
            out@ == rest@.subrange(offset as int, j as int).map_values(|c: char| ascii_lower(c)),
        decreases rest.len() - j,
    {
        push_char(&mut out, ascii_lower_char(rest[j]));
        assert(rest@.subrange(offset as int, j + 1).map_values(|c: char| ascii_lower(c))
            =~= rest@.subrange(offset as int, j as int).map_values(|c: char| ascii_lower(c)).push(
            ascii_lower(rest@[j as int]),
        ));
        j = j + 1;
    }
    assert(rest@.subrange(offset as int, rest@.len() as int) =~= rest@.skip(offset as int));
    out
}

/// `./{package-dir}.gtpack.json`.
pub fn provider_artifact_file_uri(provider_id: &str) -> (out: String)
    ensures
        out@ == "./"@ + package_dir_text(provider_id@) + ".gtpack.json"@,
{
    let mut out = owned("./");
    push_str(&mut out, provider_id_to_package_dir(provider_id).as_str());
    push_str(&mut out, ".gtpack.json");
    out
}

/// The OCI reference of a provider's published runtime artifact.
pub open spec fn oci_reference_text(provider_id: Seq<char>, version: Seq<char>) -> Seq<char> {
    "oci://ghcr.io/greenticai/sorla-providers/"@ + provider_slug_text(provider_id) + ":"@
        + version
}

/// `oci://ghcr.io/greenticai/sorla-providers/{slug}:{version}`.
pub fn provider_runtime_oci_reference(provider_id: &str, version: &str) -> (out: String)
    ensures
        out@ == oci_reference_text(provider_id@, version@),
{
    let mut out = owned("oci://ghcr.io/greenticai/sorla-providers/");
    push_str(&mut out, provider_slug(provider_id).as_str());
    push_str(&mut out, ":");
    push_str(&mut out, version);
    out
}

/// A `service` runtime component whose artifact is the provider's OCI reference.
pub fn provider_runtime_component(
    provider_id: &str,
    version: &str,
    component_id: &str,
    entrypoint: &str,
) -> (out: RuntimeComponentRef)
    ensures
        out.component_id@ == component_id@,
        out.kind@ == "service"@,
        out.entrypoint@ == entrypoint@,
        out.artifact_uri@ == oci_reference_text(provider_id@, version@),
{
    RuntimeComponentRef {
        component_id: owned(component_id),
        kind: owned("service"),
        entrypoint: owned(entrypoint),
        artifact_uri: provider_runtime_oci_reference(provider_id, version),
    }
}

impl ProviderPackManifest {
    /// The manifest built from `metadata` and the given artifact, runtime and
    /// schema references.
    pub open spec fn built_from(
        self,
        metadata: ProviderMetadata,
        artifact_references: Seq<ArtifactReference>,
        runtime_components: Seq<RuntimeComponentRef>,
        config_schema: ConfigSchemaRef,
    ) -> bool {
        &&& self.pack_format_version@ == "sorla-provider-pack/v1"@
        &&& self.provider_id == metadata.provider_id
        &&& self.provider_version == metadata.version
        &&& self.provider_kind == metadata.provider_kind
        &&& self.capabilities@ == metadata.capabilities@
        &&& self.is_mock == metadata.is_mock
        &&& self.status == metadata.status
        &&& self.supported_provider_contract_version
            == metadata.compatibility.supported_provider_contract_version
        &&& self.supported_sorla_ir == metadata.compatibility.supported_sorla_ir
        &&& self.supported_sorla_ir_range == metadata.compatibility.supported_sorla_ir_range
        &&& self.artifact_references@ == artifact_references
        &&& self.runtime_components@ == runtime_components
        &&& self.config_schema == config_schema
        &&& self.oci_reference == (if runtime_components.len() > 0 {
            Some(runtime_components[0].artifact_uri)
        } else {
            None
        })
        &&& self.display.title == metadata.display_name
        &&& self.display.summary@ == metadata.display_name@ + " provider manifest for SoRLa"@
        &&& same_ontology(self.ontology_capabilities, metadata.ontology_capabilities)
    }

    pub fn from_metadata(
        metadata: &ProviderMetadata,
        artifact_references: Vec<ArtifactReference>,
        runtime_components: Vec<RuntimeComponentRef>,
        config_schema: ConfigSchemaRef,
    ) -> (out: Self)
        ensures
            out.built_from(*metadata, artifact_references@, runtime_components@, config_schema),
    {
        let oci_reference = if runtime_components.len() > 0 {
            Some(runtime_components[0].artifact_uri.clone())
        } else {
            None
        };
        let capabilities = metadata.capabilities.clone();
        proof {
            assert(capabilities@ =~= metadata.capabilities@);
        }
        let mut summary = metadata.display_name.clone();
        push_str(&mut summary, " provider manifest for SoRLa");
        ProviderPackManifest {
            pack_format_version: owned("sorla-provider-pack/v1"),
            provider_id: metadata.provider_id.clone(),
            provider_version: metadata.version.clone(),
            provider_kind: metadata.provider_kind.clone(),
            capabilities,
            is_mock: metadata.is_mock,
            status: metadata.status,
            supported_provider_contract_version: metadata.compatibility.supported_provider_contract_version.clone(),
            supported_sorla_ir: metadata.compatibility.supported_sorla_ir.clone(),
            supported_sorla_ir_range: metadata.compatibility.supported_sorla_ir_range.clone(),
            artifact_references,
            runtime_components,
            config_schema,
            oci_reference,
            display: DisplayMetadata {
                title: metadata.display_name.clone(),
                summary,
            },
            ontology_capabilities: clone_ontology(&metadata.ontology_capabilities),
        }
    }

    pub fn package_dir_name(&self) -> (out: String)
        ensures
            out@ == package_dir_text(self.provider_id@),
    {
        provider_id_to_package_dir(self.provider_id.as_str())
    }

    pub fn artifact_file_name(&self) -> (out: String)
        ensures
            out@ == package_dir_text(self.provider_id@) + ".gtpack.json"@,
    {
        let mut out = self.package_dir_name();
        push_str(&mut out, ".gtpack.json");
        out
    }

    pub fn provider_slug(&self) -> (out: String)
        ensures
            out@ == provider_slug_text(self.provider_id@),
    {
        provider_slug(self.provider_id.as_str())
    }
}

impl GeneratedPackArtifact {
    pub fn from_manifest(manifest: ProviderPackManifest) -> (out: Self)
        ensures
            out.artifact_format@ == "sorla-provider-gtpack/v1"@,
            out.manifest == manifest,
    {
        GeneratedPackArtifact { artifact_format: owned("sorla-provider-gtpack/v1"), manifest }
    }
}

/// Package directory names hold only lower-case ASCII letters, digits and
/// `-`, one character for each character of the provider ID.
pub proof fn lemma_package_dir_is_safe(provider_id: Seq<char>)
    ensures
        package_dir_text(provider_id).len() == provider_id.len(),
        forall|i: int|
            0 <= i < provider_id.len() ==> {
                let c = #[trigger] package_dir_text(provider_id)[i];
                ('a' <= c <= 'z') || ('0' <= c <= '9') || c == '-'
            },
{
}

/// A slug never contains a `.`.
pub proof fn lemma_provider_slug_has_no_dot(provider_id: Seq<char>)
    ensures
        !provider_slug_text(provider_id).contains('.'),
{
    lemma_after_last_dot_no_dot(provider_id);
    lemma_trim_keeps_no_dot(after_last_dot(provider_id), "provider-"@);
    let t = trim_start_repeated(after_last_dot(provider_id), "provider-"@);
    assert forall|i: int| 0 <= i < t.len() implies #[trigger] provider_slug_text(provider_id)[i]
        != '.' by {
        assert(t.contains(t[i]));
    }
}

proof fn lemma_after_last_dot_no_dot(s: Seq<char>)
    ensures
        !after_last_dot(s).contains('.'),
    decreases s.len(),
{
    if s.len() > 0 && s.last() != '.' {
        lemma_after_last_dot_no_dot(s.drop_last());
        let a = after_last_dot(s.drop_last());
        assert forall|i: int| 0 <= i < a.push(s.last()).len() implies #[trigger] a.push(
            s.last(),
        )[i] != '.' by {
            if i < a.len() {
                assert(a.contains(a[i]));
            }
        }
    }
}

proof fn lemma_trim_keeps_no_dot(s: Seq<char>, p: Seq<char>)
    requires
        !s.contains('.'),
    ensures
        !trim_start_repeated(s, p).contains('.'),
    decreases s.len(),
{
    if p.len() > 0 && starts_with(s, p) {
        assert forall|i: int| 0 <= i < s.skip(p.len() as int).len() implies #[trigger] s.skip(
            p.len() as int,
        )[i] != '.' by {
            assert(s.contains(s[i + p.len()]));
        }
        lemma_trim_keeps_no_dot(s.skip(p.len() as int), p);
    }
}

} // verus!
