//! The deterministic SharePoint mock provider: BTG documents, RFIs and site
//! visits generated from a seeded hash of the request, and entity links
//! derived from SharePoint source references.
use vstd::prelude::*;

use crate::catalog::{ProviderCatalogEntry, ProviderCatalogOntology};
use crate::fnv::{fnv1a, fnv1a_text};
use crate::json_text::{json_member, json_object, json_object_text, json_opt, json_opt_string, json_quoted, json_string};
use crate::pack::{
    oci_reference_text, package_dir_text, provider_artifact_file_uri, provider_runtime_component,
    ArtifactReference, ConfigSchemaRef, ProviderPackManifest, RuntimeComponentRef,
};
use crate::text::{
    chars_of, chars_start_with, concat, decimal, decimal_string, is_blank, is_blank_text, owned,
    padded_decimal, padded_decimal_string, padded_hex, padded_hex_string, push_str, same_text,
    split_on, split_text, starts_with, string_lt, list_contains_text, texts_contain,
};
use crate::traits::{
    ConfigValidator, EntityLinkProvider, ExternalMappingProvider, ProviderHealth,
    ProviderMetadataSource,
};
use crate::tuple_key::{opt_view, parts_lt};
use crate::types::{
    ContractCompatibility, EntityLink, EntityLinkRequest, EntityRef, ExternalReferenceRequest,
    HealthReport, HealthState, OntologyContractCompatibility, PackEmission, ProviderCapability,
    ProviderError, ProviderMetadata, ProviderOntologyCapabilities, ProviderStatus,
    SORLA_PROVIDER_CONTRACT_VERSION,
};
use vstd::utf8::encode_utf8;

verus! {

/// Identity of the SharePoint mock provider.
pub const SHAREPOINT_PROVIDER_ID: &'static str = "greentic.sorla.provider.sharepoint-mock";

/// Version of the SharePoint mock provider.
pub const SHAREPOINT_PROVIDER_VERSION: &'static str = "0.1.4";

/// The bit pattern of the `f32` value 1.0, the confidence of every mock link.
pub const FULL_CONFIDENCE_BITS: u32 = 0x3f80_0000;

/// Seed and tenant of the SharePoint mock.
#[derive(Debug, PartialEq, Eq)]
pub struct SharePointMockConfig {
    pub seed: String,
    pub tenant_id: String,
}

/// What a request's metadata JSON says about the building and floor.
#[derive(Debug, Default, PartialEq, Eq)]
pub struct ExternalReferenceMetadata {
    pub building_id: Option<String>,
    pub floor_id: Option<String>,
}

/// One rule of an external mapping document; `entity_fields` lists the
/// document's field map as pairs.
#[derive(Debug, PartialEq, Eq)]
pub struct ExternalMappingRule {
    pub source_type: String,
    pub target_concept: String,
    pub id_field: String,
    pub entity_fields: Vec<(String, String)>,
}

/// An external mapping document.
#[derive(Debug, PartialEq, Eq)]
pub struct ExternalMappingDocument {
    pub schema: String,
    pub provider_id: String,
    pub mappings: Vec<ExternalMappingRule>,
}

#[derive(Debug, PartialEq, Eq)]
pub struct BtgSection {
    pub section_id: String,
    pub heading: String,
    pub summary: String,
}

#[derive(Debug, PartialEq, Eq)]
pub struct BtgDocument {
    pub document_id: String,
    pub building_id: String,
    pub floor_id: Option<String>,
    pub title: String,
    pub version: String,
    pub sections: Vec<BtgSection>,
    pub source_url: String,
    pub last_updated: String,
}

#[derive(Debug, PartialEq, Eq)]
pub struct RfiRecord {
    pub rfi_id: String,
    pub building_id: String,
    pub floor_id: Option<String>,
    pub question: String,
    pub answer: String,
    pub status: String,
    pub date: String,
    pub source_url: String,
}

#[derive(Debug, PartialEq, Eq)]
pub struct SiteVisitRecord {
    pub visit_id: String,
    pub building_id: String,
    pub floor_id: Option<String>,
    pub summary: String,
    pub findings: Vec<String>,
    pub date: String,
    pub source_url: String,
}

/// A generated SharePoint record of one of the three families.
#[derive(Debug, PartialEq, Eq)]
pub enum SharePointMockRecord {
    Btg(BtgDocument),
    Rfi(RfiRecord),
    SiteVisit(SiteVisitRecord),
}

/// The deterministic SharePoint mock provider.
pub struct SharePointMockProvider {
    config: SharePointMockConfig,
}

/// The text of an optional string, empty when absent.
pub open spec fn or_empty(o: Option<String>) -> Seq<char> {
    match o {
        Some(s) => s@,
        None => Seq::empty(),
    }
}

/// The text of an optional string, or `fallback`.
pub open spec fn or_text(o: Option<String>, fallback: Seq<char>) -> Seq<char> {
    match o {
        Some(s) => s@,
        None => fallback,
    }
}

/// The hash of a request: FNV-1a over seed, tenant, reference type and id,
/// source reference and metadata JSON.
pub open spec fn request_hash(config: SharePointMockConfig, r: ExternalReferenceRequest) -> u64 {
    fnv1a(
        encode_utf8(
            config.seed@ + config.tenant_id@ + r.reference_type@ + r.reference_id@ + or_empty(
                r.source_ref,
            ) + or_empty(r.metadata_json),
        ),
    )
}

/// The building of a request: from its metadata, else derived from the hash.
pub open spec fn building_text(meta: ExternalReferenceMetadata, hash: u64) -> Seq<char> {
    or_text(meta.building_id, "building-"@ + decimal((hash % 1000) as nat))
}

/// `2026-MM-DD` with month and day derived from the hash.
pub open spec fn date_text(hash: u64) -> Seq<char> {
    "2026-"@ + padded_decimal(((hash % 12) + 1) as nat, 2) + "-"@ + padded_decimal(
        (((hash / 13) % 28) + 1) as nat,
        2,
    )
}

/// The mock SharePoint URL of a record.
pub open spec fn source_url_text(tenant: Seq<char>, family: Seq<char>, record_id: Seq<char>, building: Seq<char>) -> Seq<char> {
    "https://sharepoint.mock.greentic/"@ + tenant + "/"@ + building + "/"@ + family + "/"@
        + record_id
}

/// The SharePoint source reference of a record.
pub open spec fn source_ref_text(tenant: Seq<char>, family: Seq<char>, record_id: Seq<char>) -> Seq<char> {
    if family == "rfi"@ || family == "site-visit"@ {
        "sharepoint://tenant/"@ + tenant + "/list/"@ + family + "/item/"@ + record_id
    } else {
        "sharepoint://tenant/"@ + tenant + "/document/"@ + record_id
    }
}

/// The BTG document generated for a request.
pub open spec fn is_btg_for(d: BtgDocument, config: SharePointMockConfig, r: ExternalReferenceRequest, meta: ExternalReferenceMetadata) -> bool {
    let h = request_hash(config, r);
    let building = building_text(meta, h);
    let id = "btg-"@ + padded_hex(h as nat, 16);
    &&& d.document_id@ == id
    &&& d.building_id@ == building
    &&& d.floor_id == meta.floor_id
    &&& d.title@ == "BTG "@ + r.reference_id@ + " for "@ + building
    &&& d.version@ == "v"@ + decimal(((h % 3) + 1) as nat) + "."@ + decimal((h % 10) as nat)
    &&& d.sections@.len() == 2
    &&& d.sections@[0].section_id@ == id + "-sec-01"@
    &&& d.sections@[0].heading@ == "Means of egress"@
    &&& d.sections@[0].summary@ == "Floor "@ + or_text(meta.floor_id, "all"@)
        + " stair enclosure review recorded for "@ + building + "."@
    &&& d.sections@[1].section_id@ == id + "-sec-02"@
    &&& d.sections@[1].heading@ == "Fire alarm"@
    &&& d.sections@[1].summary@ == "Alarm zoning and annunciator placement summary captured for "@
        + r.reference_id@ + "."@
    &&& d.source_url@ == source_url_text(config.tenant_id@, "btg"@, id, building)
    &&& d.last_updated@ == date_text(h)
}

/// The RFI generated for a request.
pub open spec fn is_rfi_for(d: RfiRecord, config: SharePointMockConfig, r: ExternalReferenceRequest, meta: ExternalReferenceMetadata) -> bool {
    let h = request_hash(config, r);
    let building = building_text(meta, h);
    let id = "rfi-"@ + padded_hex(h as nat, 16);
    &&& d.rfi_id@ == id
    &&& d.building_id@ == building
    &&& d.floor_id == meta.floor_id
    &&& d.question@ == "Clarify smoke damper access for "@ + r.reference_id@ + " on "@ + or_text(
        meta.floor_id,
        "shared plant spaces"@,
    ) + "."@
    &&& d.answer@ == "Access route confirmed via service riser and reflected in coordination markups."@
    &&& d.status@ == (if h % 2 == 0 {
        "closed"@
    } else {
        "answered"@
    })
    &&& d.date@ == date_text(h)
    &&& d.source_url@ == source_url_text(config.tenant_id@, "rfi"@, id, building)
}

/// The site visit generated for a request.
pub open spec fn is_site_visit_for(d: SiteVisitRecord, config: SharePointMockConfig, r: ExternalReferenceRequest, meta: ExternalReferenceMetadata) -> bool {
    let h = request_hash(config, r);
    let building = building_text(meta, h);
    let id = "visit-"@ + padded_hex(h as nat, 16);
    &&& d.visit_id@ == id
    &&& d.building_id@ == building
    &&& d.floor_id == meta.floor_id
    &&& d.summary@ == "Site walk for "@ + building + " recorded observations around "@ + or_text(
        meta.floor_id,
        "shared circulation"@,
    ) + "."@
    &&& d.findings@.len() == 3
    &&& d.findings@[0]@ == "Fire door closer adjustment required at service corridor."@
    &&& d.findings@[1]@ == "Ceiling access panel labelled for alarm loop inspection."@
    &&& d.findings@[2]@ == "Mock note seed anchored to "@ + r.reference_id@ + "."@
    &&& d.date@ == date_text(h)
    &&& d.source_url@ == source_url_text(config.tenant_id@, "site-visit"@, id, building)
}

/// The link of a SharePoint record to its `EvidenceDocument` entity.
pub open spec fn is_document_link(l: EntityLink, tenant: Seq<char>, entity_id: Seq<char>, source_ref: Seq<char>, metadata_json: Option<Seq<char>>) -> bool {
    &&& l.entity.entity_type@ == "EvidenceDocument"@
    &&& l.entity.entity_id@ == entity_id
    &&& opt_view(l.entity.namespace) == Some(tenant)
    &&& l.entity.version is None
    &&& l.source_ref@ == source_ref
    &&& l.evidence_id is None
    &&& l.confidence == FULL_CONFIDENCE_BITS
    &&& l.match_kind@ == "external-id"@
    &&& l.provenance@ == "sharepoint-mock deterministic mapping"@
    &&& opt_view(l.metadata_json) == metadata_json
}

/// The prefix every source reference of a tenant starts with.
pub open spec fn tenant_ref_prefix(tenant: Seq<char>) -> Seq<char> {
    "sharepoint://tenant/"@ + tenant + "/"@
}

/// The entity id a source reference names: `document/{id}` or
/// `list/{list}/item/{id}` after the tenant prefix.
pub open spec fn source_ref_entity(tenant: Seq<char>, source_ref: Seq<char>) -> Option<Seq<char>> {
    let prefix = tenant_ref_prefix(tenant);
    if !starts_with(source_ref, prefix) {
        None
    } else {
        let parts = split_text(source_ref.skip(prefix.len() as int), '/');
        if parts.len() == 2 && parts[0] == "document"@ {
            Some(parts[1])
        } else if parts.len() == 4 && parts[0] == "list"@ && parts[2] == "item"@ {
            Some(parts[3])
        } else {
            None
        }
    }
}

/// The id, source reference and metadata JSON by which a record is linked.
pub open spec fn record_identity_text(tenant: Seq<char>, record: SharePointMockRecord) -> (Seq<char>, Seq<char>, Seq<char>) {
    match record {
        SharePointMockRecord::Btg(d) => (
            d.document_id@,
            source_ref_text(tenant, "btg"@, d.document_id@),
            json_object(seq![
                json_member("building_id"@, json_quoted(d.building_id@)),
                json_member("family"@, json_quoted("btg"@)),
                json_member("floor_id"@, json_opt(d.floor_id)),
                json_member("source_url"@, json_quoted(d.source_url@)),
                json_member("title"@, json_quoted(d.title@)),
            ]),
        ),
        SharePointMockRecord::Rfi(d) => (
            d.rfi_id@,
            source_ref_text(tenant, "rfi"@, d.rfi_id@),
            json_object(seq![
                json_member("building_id"@, json_quoted(d.building_id@)),
                json_member("family"@, json_quoted("rfi"@)),
                json_member("floor_id"@, json_opt(d.floor_id)),
                json_member("source_url"@, json_quoted(d.source_url@)),
                json_member("status"@, json_quoted(d.status@)),
            ]),
        ),
        SharePointMockRecord::SiteVisit(d) => (
            d.visit_id@,
            source_ref_text(tenant, "site-visit"@, d.visit_id@),
            json_object(seq![
                json_member("building_id"@, json_quoted(d.building_id@)),
                json_member("family"@, json_quoted("site-visit"@)),
                json_member("floor_id"@, json_opt(d.floor_id)),
                json_member("source_url"@, json_quoted(d.source_url@)),
            ]),
        ),
    }
}

fn member(key: &str, value: String) -> (m: String)
    ensures
        m@ == json_member(key@, value@),
{
    let mut m = owned("\"");
    push_str(&mut m, key);
    push_str(&mut m, "\":");
    push_str(&mut m, value.as_str());
    proof {
        reveal_strlit("\"");
        reveal_strlit("\":");
    }
    assert(m@ =~= json_member(key@, value@));
    m
}

fn opt_string_clone(o: &Option<String>) -> (r: Option<String>)
    ensures
        r == *o,
{
    match o {
        Some(s) => Some(s.clone()),
        None => None,
    }
}

impl SharePointMockProvider {
    /// The configuration the provider was made with.
    pub closed spec fn config_view(self) -> SharePointMockConfig {
        self.config
    }

    pub fn new(config: SharePointMockConfig) -> (p: Self)
        ensures
            p.config_view() == config,
    {
        SharePointMockProvider { config }
    }

    /// The provider with the test seed and the `ka-fd-demo` tenant.
    pub fn for_tests() -> (p: Self)
        ensures
            p.config_view().seed@ == "greentic-sorla-sharepoint-mock"@,
            p.config_view().tenant_id@ == "ka-fd-demo"@,
    {
        Self::new(
            SharePointMockConfig {
                seed: owned("greentic-sorla-sharepoint-mock"),
                tenant_id: owned("ka-fd-demo"),
            },
        )
    }

    /// FNV-1a over seed, tenant, reference type and id, source reference and
    /// metadata JSON.
    pub fn stable_hash(&self, request: &ExternalReferenceRequest) -> (h: u64)
        ensures
            h == request_hash(self.config_view(), *request),
    {
        let mut text = self.config.seed.clone();
        push_str(&mut text, self.config.tenant_id.as_str());
        push_str(&mut text, request.reference_type.as_str());
        push_str(&mut text, request.reference_id.as_str());
        match &request.source_ref {
            Some(s) => push_str(&mut text, s.as_str()),
            None => {},
        }
        match &request.metadata_json {
            Some(s) => push_str(&mut text, s.as_str()),
            None => {},
        }
        assert(text@ =~= self.config.seed@ + self.config.tenant_id@ + request.reference_type@
            + request.reference_id@ + or_empty(request.source_ref) + or_empty(
            request.metadata_json,
        ));
        fnv1a_text(&text)
    }

    /// The building of a request: its metadata's, else `building-{hash % 1000}`.
    pub fn building_id(&self, request: &ExternalReferenceRequest, metadata: &ExternalReferenceMetadata) -> (b: String)
        ensures
            b@ == building_text(*metadata, request_hash(self.config_view(), *request)),
    {
        match &metadata.building_id {
            Some(b) => b.clone(),
            None => concat("building-", decimal_string(self.stable_hash(request) % 1000).as_str()),
        }
    }

    /// The floor of a request, from its metadata.
    pub fn floor_id(&self, metadata: &ExternalReferenceMetadata) -> (f: Option<String>)
        ensures
            f == metadata.floor_id,
    {
        opt_string_clone(&metadata.floor_id)
    }

    /// `2026-MM-DD` from the request hash.
    pub fn stable_date(&self, request: &ExternalReferenceRequest) -> (d: String)
        ensures
            d@ == date_text(request_hash(self.config_view(), *request)),
    {
        let hash = self.stable_hash(request);
        let month = (hash % 12) + 1;
        let day = ((hash / 13) % 28) + 1;
        let mut d = owned("2026-");
        push_str(&mut d, padded_decimal_string(month, 2).as_str());
        push_str(&mut d, "-");
        push_str(&mut d, padded_decimal_string(day, 2).as_str());
        d
    }

    /// The mock URL of a record.
    pub fn source_url(&self, family: &str, record_id: &str, building_id: &str) -> (u: String)
        ensures
            u@ == source_url_text(self.config_view().tenant_id@, family@, record_id@, building_id@),
    {
        let mut u = owned("https://sharepoint.mock.greentic/");
        push_str(&mut u, self.config.tenant_id.as_str());
        push_str(&mut u, "/");
        push_str(&mut u, building_id);
        push_str(&mut u, "/");
        push_str(&mut u, family);
        push_str(&mut u, "/");
        push_str(&mut u, record_id);
        u
    }

    /// The SharePoint source reference of a record.
    pub fn source_ref_for(&self, family: &str, record_id: &str) -> (s: String)
        ensures
            s@ == source_ref_text(self.config_view().tenant_id@, family@, record_id@),
    {
        let mut s = owned("sharepoint://tenant/");
        push_str(&mut s, self.config.tenant_id.as_str());
        if same_text(family, "rfi") || same_text(family, "site-visit") {
            push_str(&mut s, "/list/");
            push_str(&mut s, family);
            push_str(&mut s, "/item/");
        } else {
            push_str(&mut s, "/document/");
        }
        push_str(&mut s, record_id);
        s
    }

    /// The link of a record to its `EvidenceDocument` entity.
    pub fn link_from_parts(&self, entity_id: String, source_ref: String, metadata_json: Option<String>) -> (l: EntityLink)
        ensures
            is_document_link(l, self.config_view().tenant_id@, entity_id@, source_ref@, opt_view(metadata_json)),
    {
        EntityLink {
            entity: EntityRef {
                entity_type: owned("EvidenceDocument"),
                entity_id,
                namespace: Some(self.config.tenant_id.clone()),
                version: None,
            },
            source_ref,
            evidence_id: None,
            confidence: FULL_CONFIDENCE_BITS,
            match_kind: owned("external-id"),
            provenance: owned("sharepoint-mock deterministic mapping"),
            metadata_json,
        }
    }

    /// The link a source reference names, if it has one of the two shapes.
    pub fn link_from_source_ref(&self, source_ref: &str) -> (r: Result<EntityLink, ProviderError>)
        ensures
            ({
                let tenant = self.config_view().tenant_id@;
                let prefix = tenant_ref_prefix(tenant);
                match r {
                    Ok(l) => (source_ref_entity(tenant, source_ref@) matches Some(id)
                        && is_document_link(l, tenant, id, source_ref@, None)),
                    Err(e) => source_ref_entity(tenant, source_ref@) is None && (e matches ProviderError::Validation(m)
                        && m@ == (if starts_with(source_ref@, prefix) {
                            "unsupported SharePoint mock source_ref shape"@
                        } else {
                            "source_ref must start with "@ + prefix
                        })),
                }
            }),
    {
        let mut prefix = owned("sharepoint://tenant/");
        push_str(&mut prefix, self.config.tenant_id.as_str());
        push_str(&mut prefix, "/");
        let cs = chars_of(source_ref);
        let ps = chars_of(prefix.as_str());
        if !chars_start_with(cs.as_slice(), ps.as_slice()) {
            return Err(ProviderError::Validation(concat("source_ref must start with ", prefix.as_str())));
        }
        let mut rest: Vec<char> = Vec::new();
        let n = cs.len();
        let start = ps.len();
        for i in start..n
            invariant
                start <= n,
                n == cs@.len(),
                rest@ == cs@.subrange(start as int, i as int),
        {
            rest.push(cs[i]);
            assert(rest@ =~= cs@.subrange(start as int, i + 1));
        }
        assert(rest@ =~= source_ref@.skip(start as int));
        let parts = split_on(rest.as_slice(), '/');
        let ghost pv = parts@.map_values(|p: String| p@);
        proof {
            crate::text::lemma_split_text_nonempty(rest@, '/');
        }
        let entity_id: String = if parts.len() == 2 && same_text(parts[0].as_str(), "document") {
            assert(pv[1] == parts@[1]@);
            parts[1].clone()
        } else if parts.len() == 4 && same_text(parts[0].as_str(), "list") && same_text(parts[2].as_str(), "item") {
            assert(pv[3] == parts@[3]@);
            parts[3].clone()
        } else {
            assert(pv[0] == parts@[0]@);
            return Err(ProviderError::Validation(owned("unsupported SharePoint mock source_ref shape")));
        };
        Ok(self.link_from_parts(entity_id, owned(source_ref), None))
    }

    /// The id, source reference and metadata JSON by which a record is linked.
    pub fn record_identity(&self, record: &SharePointMockRecord) -> (r: (String, String, String))
        ensures
            ({
                let t = record_identity_text(self.config_view().tenant_id@, *record);
                r.0@ == t.0 && r.1@ == t.1 && r.2@ == t.2
            }),
    {
        let mut members: Vec<String> = Vec::new();
        match record {
            SharePointMockRecord::Btg(d) => {
                members.push(member("building_id", json_string(d.building_id.as_str())));
                members.push(member("family", json_string("btg")));
                members.push(member("floor_id", json_opt_string(&d.floor_id)));
                members.push(member("source_url", json_string(d.source_url.as_str())));
                members.push(member("title", json_string(d.title.as_str())));
                let json = json_object_text(&members);
                proof {
                    let t = record_identity_text(self.config.tenant_id@, *record);
                    assert(members@.map_values(|m: String| m@) =~= seq![
                        json_member("building_id"@, json_quoted(d.building_id@)),
                        json_member("family"@, json_quoted("btg"@)),
                        json_member("floor_id"@, json_opt(d.floor_id)),
                        json_member("source_url"@, json_quoted(d.source_url@)),
                        json_member("title"@, json_quoted(d.title@)),
                    ]);
                }
                (d.document_id.clone(), self.source_ref_for("btg", d.document_id.as_str()), json)
            },
            SharePointMockRecord::Rfi(d) => {
                members.push(member("building_id", json_string(d.building_id.as_str())));
                members.push(member("family", json_string("rfi")));
                members.push(member("floor_id", json_opt_string(&d.floor_id)));
                members.push(member("source_url", json_string(d.source_url.as_str())));
                members.push(member("status", json_string(d.status.as_str())));
                let json = json_object_text(&members);
                proof {
                    assert(members@.map_values(|m: String| m@) =~= seq![
                        json_member("building_id"@, json_quoted(d.building_id@)),
                        json_member("family"@, json_quoted("rfi"@)),
                        json_member("floor_id"@, json_opt(d.floor_id)),
                        json_member("source_url"@, json_quoted(d.source_url@)),
                        json_member("status"@, json_quoted(d.status@)),
                    ]);
                }
                (d.rfi_id.clone(), self.source_ref_for("rfi", d.rfi_id.as_str()), json)
            },
            SharePointMockRecord::SiteVisit(d) => {
                members.push(member("building_id", json_string(d.building_id.as_str())));
                members.push(member("family", json_string("site-visit")));
                members.push(member("floor_id", json_opt_string(&d.floor_id)));
                members.push(member("source_url", json_string(d.source_url.as_str())));
                let json = json_object_text(&members);
                proof {
                    assert(members@.map_values(|m: String| m@) =~= seq![
                        json_member("building_id"@, json_quoted(d.building_id@)),
                        json_member("family"@, json_quoted("site-visit"@)),
                        json_member("floor_id"@, json_opt(d.floor_id)),
                        json_member("source_url"@, json_quoted(d.source_url@)),
                    ]);
                }
                (d.visit_id.clone(), self.source_ref_for("site-visit", d.visit_id.as_str()), json)
            },
        }
    }
}

fn section(id_base: &String, suffix: &str, heading: &str, summary: String) -> (s: BtgSection)
    ensures
        s.section_id@ == id_base@ + suffix@,
        s.heading@ == heading@,
        s.summary == summary,
{
    BtgSection { section_id: concat(id_base.as_str(), suffix), heading: owned(heading), summary }
}

fn or_string(o: &Option<String>, fallback: &str) -> (s: String)
    ensures
        s@ == or_text(*o, fallback@),
{
    match o {
        Some(v) => v.clone(),
        None => owned(fallback),
    }
}

impl SharePointMockProvider {
    /// The BTG document for a request.
    pub fn btg_record(&self, request: &ExternalReferenceRequest, metadata: &ExternalReferenceMetadata) -> (r: SharePointMockRecord)
        ensures
            r matches SharePointMockRecord::Btg(d) && is_btg_for(d, self.config_view(), *request, *metadata),
    {
        let hash = self.stable_hash(request);
        let building_id = self.building_id(request, metadata);
        let floor_id = self.floor_id(metadata);
        let document_id = concat("btg-", padded_hex_string(hash, 16).as_str());
        let source_url = self.source_url("btg", document_id.as_str(), building_id.as_str());
        let mut title = owned("BTG ");
        push_str(&mut title, request.reference_id.as_str());
        push_str(&mut title, " for ");
        push_str(&mut title, building_id.as_str());
        let mut version = owned("v");
        push_str(&mut version, decimal_string((hash % 3) + 1).as_str());
        push_str(&mut version, ".");
        push_str(&mut version, decimal_string(hash % 10).as_str());
        let mut summary1 = owned("Floor ");
        push_str(&mut summary1, or_string(&floor_id, "all").as_str());
        push_str(&mut summary1, " stair enclosure review recorded for ");
        push_str(&mut summary1, building_id.as_str());
        push_str(&mut summary1, ".");
        let mut summary2 = owned("Alarm zoning and annunciator placement summary captured for ");
        push_str(&mut summary2, request.reference_id.as_str());
        push_str(&mut summary2, ".");
        let mut sections: Vec<BtgSection> = Vec::new();
        sections.push(section(&document_id, "-sec-01", "Means of egress", summary1));
        sections.push(section(&document_id, "-sec-02", "Fire alarm", summary2));
        SharePointMockRecord::Btg(
            BtgDocument {
                document_id,
                building_id,
                floor_id,
                title,
                version,
                sections,
                source_url,
                last_updated: self.stable_date(request),
            },
        )
    }

    /// The RFI for a request.
    pub fn rfi_record(&self, request: &ExternalReferenceRequest, metadata: &ExternalReferenceMetadata) -> (r: SharePointMockRecord)
        ensures
            r matches SharePointMockRecord::Rfi(d) && is_rfi_for(d, self.config_view(), *request, *metadata),
    {
        let hash = self.stable_hash(request);
        let building_id = self.building_id(request, metadata);
        let floor_id = self.floor_id(metadata);
        let rfi_id = concat("rfi-", padded_hex_string(hash, 16).as_str());
        let source_url = self.source_url("rfi", rfi_id.as_str(), building_id.as_str());
        let mut question = owned("Clarify smoke damper access for ");
        push_str(&mut question, request.reference_id.as_str());
        push_str(&mut question, " on ");
        push_str(&mut question, or_string(&floor_id, "shared plant spaces").as_str());
        push_str(&mut question, ".");
        let status = if hash % 2 == 0 {
            owned("closed")
        } else {
            owned("answered")
        };
        SharePointMockRecord::Rfi(
            RfiRecord {
                rfi_id,
                building_id,
                floor_id,
                question,
                answer: owned(
                    "Access route confirmed via service riser and reflected in coordination markups.",
                ),
                status,
                date: self.stable_date(request),
                source_url,
            },
        )
    }

    /// The site visit for a request.
    pub fn site_visit_record(&self, request: &ExternalReferenceRequest, metadata: &ExternalReferenceMetadata) -> (r: SharePointMockRecord)
        ensures
            r matches SharePointMockRecord::SiteVisit(d) && is_site_visit_for(d, self.config_view(), *request, *metadata),
    {
        let hash = self.stable_hash(request);
        let building_id = self.building_id(request, metadata);
        let floor_id = self.floor_id(metadata);
        let visit_id = concat("visit-", padded_hex_string(hash, 16).as_str());
        let source_url = self.source_url("site-visit", visit_id.as_str(), building_id.as_str());
        let mut summary = owned("Site walk for ");
        push_str(&mut summary, building_id.as_str());
        push_str(&mut summary, " recorded observations around ");
        push_str(&mut summary, or_string(&floor_id, "shared circulation").as_str());
        push_str(&mut summary, ".");
        let mut findings: Vec<String> = Vec::new();
        findings.push(owned("Fire door closer adjustment required at service corridor."));
        findings.push(owned("Ceiling access panel labelled for alarm loop inspection."));
        let mut note = owned("Mock note seed anchored to ");
        push_str(&mut note, request.reference_id.as_str());
        push_str(&mut note, ".");
        findings.push(note);
        SharePointMockRecord::SiteVisit(
            SiteVisitRecord {
                visit_id,
                building_id: building_id,
                floor_id,
                summary,
                findings,
                date: self.stable_date(request),
                source_url,
            },
        )
    }

    /// The record of the requested family. `metadata` is the outcome of
    /// parsing the request's metadata JSON (the default when it has none).
    pub fn generate_record(&self, request: &ExternalReferenceRequest, metadata: Result<ExternalReferenceMetadata, String>) -> (r: Result<SharePointMockRecord, ProviderError>)
        ensures
            match metadata {
                Err(message) => r matches Err(ProviderError::Validation(m)) && m@
                    == "invalid external reference metadata JSON: "@ + message@,
                Ok(meta) => if request.reference_type@ == "btg"@ {
                    r matches Ok(SharePointMockRecord::Btg(d)) && is_btg_for(d, self.config_view(), *request, meta)
                } else if request.reference_type@ == "rfi"@ {
                    r matches Ok(SharePointMockRecord::Rfi(d)) && is_rfi_for(d, self.config_view(), *request, meta)
                } else if request.reference_type@ == "site-visit"@ {
                    r matches Ok(SharePointMockRecord::SiteVisit(d)) && is_site_visit_for(d, self.config_view(), *request, meta)
                } else {
                    r matches Err(ProviderError::Unsupported(m)) && m@ == "sharepoint-mock reference_type"@
                },
            },
    {
        let meta = match metadata {
            Err(message) => {
                return Err(ProviderError::Validation(concat("invalid external reference metadata JSON: ", message.as_str())));
            },
            Ok(m) => m,
        };
        let kind = request.reference_type.as_str();
        if same_text(kind, "btg") {
            Ok(self.btg_record(request, &meta))
        } else if same_text(kind, "rfi") {
            Ok(self.rfi_record(request, &meta))
        } else if same_text(kind, "site-visit") {
            Ok(self.site_visit_record(request, &meta))
        } else {
            Err(ProviderError::Unsupported("sharepoint-mock reference_type"))
        }
    }

    /// The record resolved for a reference, with its id and URL.
    pub fn resolve_record(&self, request: &ExternalReferenceRequest, metadata: Result<ExternalReferenceMetadata, String>) -> (r: Result<(String, String, SharePointMockRecord), ProviderError>)
        ensures
            match r {
                Ok((id, url, record)) => match record {
                    SharePointMockRecord::Btg(d) => id == d.document_id && url == d.source_url,
                    SharePointMockRecord::Rfi(d) => id == d.rfi_id && url == d.source_url,
                    SharePointMockRecord::SiteVisit(d) => id == d.visit_id && url == d.source_url,
                },
                Err(_) => true,
            },
            match metadata {
                Err(message) => r matches Err(ProviderError::Validation(m)) && m@
                    == "invalid external reference metadata JSON: "@ + message@,
                Ok(meta) => if request.reference_type@ == "btg"@ {
                    r matches Ok((_, _, SharePointMockRecord::Btg(d))) && is_btg_for(d, self.config_view(), *request, meta)
                } else if request.reference_type@ == "rfi"@ {
                    r matches Ok((_, _, SharePointMockRecord::Rfi(d))) && is_rfi_for(d, self.config_view(), *request, meta)
                } else if request.reference_type@ == "site-visit"@ {
                    r matches Ok((_, _, SharePointMockRecord::SiteVisit(d))) && is_site_visit_for(d, self.config_view(), *request, meta)
                } else {
                    r matches Err(ProviderError::Unsupported(m)) && m@ == "sharepoint-mock reference_type"@
                },
            },
    {
        let record = self.generate_record(request, metadata)?;
        let (id, url) = match &record {
            SharePointMockRecord::Btg(d) => (d.document_id.clone(), d.source_url.clone()),
            SharePointMockRecord::Rfi(d) => (d.rfi_id.clone(), d.source_url.clone()),
            SharePointMockRecord::SiteVisit(d) => (d.visit_id.clone(), d.source_url.clone()),
        };
        Ok((id, url, record))
    }
}

/// The capabilities the SharePoint mock advertises, in order.
pub open spec fn sharepoint_capabilities() -> Seq<ProviderCapability> {
    seq![
        ProviderCapability::ExternalReferenceResolve,
        ProviderCapability::ExternalMappingValidate,
        ProviderCapability::EntityLink,
        ProviderCapability::HealthCheck,
        ProviderCapability::ConfigValidate,
        ProviderCapability::PackMetadataEmit,
    ]
}

/// The metadata of the SharePoint mock.
pub open spec fn is_sharepoint_metadata(m: ProviderMetadata) -> bool {
    &&& m.provider_id@ == SHAREPOINT_PROVIDER_ID@
    &&& m.display_name@ == "SharePoint Mock"@
    &&& m.provider_kind@ == "external-ref"@
    &&& m.version@ == SHAREPOINT_PROVIDER_VERSION@
    &&& m.status == ProviderStatus::Experimental
    &&& m.is_mock
    &&& m.capabilities@ == sharepoint_capabilities()
    &&& m.compatibility.supported_provider_contract_version@ == SORLA_PROVIDER_CONTRACT_VERSION@
    &&& m.compatibility.supported_sorla_ir@ == "0.1"@
    &&& m.compatibility.supported_sorla_ir_range@ == ">=0.1, <0.2"@
    &&& m.ontology_capabilities is Some
    &&& {
        let o = m.ontology_capabilities.unwrap();
        &&& o.schema@ == "greentic.sorla.provider.ontology-capabilities.v1"@
        &&& o.compatibility.supported_ontology_schema@ == "greentic.sorla.ontology.v1"@
        &&& o.compatibility.supported_ontology_schema_range@ == ">=1.0.0, <2.0.0"@
        &&& o.compatibility.supported_retrieval_binding_schema is None
        &&& opt_view(o.compatibility.supported_external_mapping_schema) == Some("greentic.sorla.external-mapping.v1"@)
        &&& !o.supports_entity_read
        &&& !o.supports_entity_search
        &&& !o.supports_relationship_query
        &&& !o.supports_path_find
        &&& o.supports_entity_linking
        &&& !o.supports_ontology_scoped_evidence
        &&& o.supported_concept_types@.map_values(|s: String| s@) == seq!["EvidenceDocument"@]
        &&& o.supported_relationship_types@.len() == 0
        &&& o.max_traversal_depth is None
        &&& !o.supports_policy_context
        &&& o.index_capabilities is None
        &&& o.search_capabilities is None
    }
}

fn sharepoint_metadata() -> (m: ProviderMetadata)
    ensures
        is_sharepoint_metadata(m),
{
    let mut capabilities: Vec<ProviderCapability> = Vec::new();
    capabilities.push(ProviderCapability::ExternalReferenceResolve);
    capabilities.push(ProviderCapability::ExternalMappingValidate);
    capabilities.push(ProviderCapability::EntityLink);
    capabilities.push(ProviderCapability::HealthCheck);
    capabilities.push(ProviderCapability::ConfigValidate);
    capabilities.push(ProviderCapability::PackMetadataEmit);
    assert(capabilities@ =~= sharepoint_capabilities());
    let mut concepts: Vec<String> = Vec::new();
    concepts.push(owned("EvidenceDocument"));
    assert(concepts@.map_values(|s: String| s@) =~= seq!["EvidenceDocument"@]);
    ProviderMetadata {
        provider_id: owned(SHAREPOINT_PROVIDER_ID),
        display_name: owned("SharePoint Mock"),
        provider_kind: owned("external-ref"),
        version: owned(SHAREPOINT_PROVIDER_VERSION),
        status: ProviderStatus::Experimental,
        is_mock: true,
        capabilities,
        compatibility: ContractCompatibility::new(SORLA_PROVIDER_CONTRACT_VERSION, "0.1", ">=0.1, <0.2"),
        ontology_capabilities: Some(
            ProviderOntologyCapabilities {
                schema: owned("greentic.sorla.provider.ontology-capabilities.v1"),
                compatibility: OntologyContractCompatibility {
                    supported_ontology_schema: owned("greentic.sorla.ontology.v1"),
                    supported_ontology_schema_range: owned(">=1.0.0, <2.0.0"),
                    supported_retrieval_binding_schema: None,
                    supported_external_mapping_schema: Some(owned("greentic.sorla.external-mapping.v1")),
                },
                supports_entity_read: false,
                supports_entity_search: false,
                supports_relationship_query: false,
                supports_path_find: false,
                supports_entity_linking: true,
                supports_ontology_scoped_evidence: false,
                supported_concept_types: concepts,
                supported_relationship_types: Vec::new(),
                max_traversal_depth: None,
                supports_policy_context: false,
                index_capabilities: None,
                search_capabilities: None,
            },
        ),
    }
}

impl ProviderMetadataSource for SharePointMockProvider {
    fn metadata(&self) -> (m: ProviderMetadata)
        ensures
            is_sharepoint_metadata(m),
    {
        sharepoint_metadata()
    }

    fn pack_emission(&self) -> (e: PackEmission)
        ensures
            e.provider_id@ == SHAREPOINT_PROVIDER_ID@,
            e.artifact_ref@ == "file://generated/provider-sharepoint-mock.gtpack"@,
    {
        PackEmission {
            provider_id: self.metadata().provider_id,
            artifact_ref: owned("file://generated/provider-sharepoint-mock.gtpack"),
        }
    }
}

impl ProviderHealth for SharePointMockProvider {
    fn health(&self) -> (r: Result<HealthReport, ProviderError>)
        ensures
            r matches Ok(report) && report.state == HealthState::Ready && report.message@
                == "SharePoint mock provider is ready for tenant "@ + self.config_view().tenant_id@
                + " with deterministic seed "@ + self.config_view().seed@,
    {
        let mut message = owned("SharePoint mock provider is ready for tenant ");
        push_str(&mut message, self.config.tenant_id.as_str());
        push_str(&mut message, " with deterministic seed ");
        push_str(&mut message, self.config.seed.as_str());
        Ok(HealthReport { state: HealthState::Ready, message })
    }
}

/// Why a parsed SharePoint mock configuration is refused, if it is.
pub open spec fn sharepoint_config_refusal(parsed: Result<SharePointMockConfig, String>) -> Option<Seq<char>> {
    match parsed {
        Err(message) => Some("invalid config JSON: "@ + message@),
        Ok(config) => if is_blank_text(config.seed@) {
            Some("seed must not be empty"@)
        } else if is_blank_text(config.tenant_id@) {
            Some("tenant_id must not be empty"@)
        } else {
            None
        },
    }
}

impl ConfigValidator for SharePointMockProvider {
    type Config = SharePointMockConfig;

    fn validate_config(&self, parsed: Result<SharePointMockConfig, String>) -> (r: Result<(), ProviderError>)
        ensures
            match sharepoint_config_refusal(parsed) {
                None => r is Ok,
                Some(message) => r matches Err(ProviderError::Validation(m)) && m@ == message,
            },
    {
        match parsed {
            Err(message) => Err(ProviderError::Validation(concat("invalid config JSON: ", message.as_str()))),
            Ok(config) => {
                if is_blank(config.seed.as_str()) {
                    return Err(ProviderError::Validation(owned("seed must not be empty")));
                }
                if is_blank(config.tenant_id.as_str()) {
                    return Err(ProviderError::Validation(owned("tenant_id must not be empty")));
                }
                Ok(())
            },
        }
    }
}

/// A mapping rule lacks a source type, target concept, id field or entity fields.
pub open spec fn rule_incomplete(rule: ExternalMappingRule) -> bool {
    is_blank_text(rule.source_type@) || is_blank_text(rule.target_concept@) || is_blank_text(rule.id_field@)
        || rule.entity_fields@.len() == 0
}

/// Why a parsed external mapping document is refused, if it is.
pub open spec fn mapping_refusal(parsed: Result<ExternalMappingDocument, String>) -> Option<Seq<char>> {
    match parsed {
        Err(message) => Some("invalid external mapping JSON: "@ + message@),
        Ok(doc) => if doc.schema@ != "greentic.sorla.external-mapping.v1"@ {
            Some("unsupported external mapping schema"@)
        } else if doc.provider_id@ != SHAREPOINT_PROVIDER_ID@ {
            Some("external mapping provider_id does not match sharepoint mock"@)
        } else if doc.mappings@.len() == 0 {
            Some("external mapping must include at least one mapping"@)
        } else if exists|i: int| 0 <= i < doc.mappings@.len() && rule_incomplete(#[trigger] doc.mappings@[i]) {
            Some("external mapping rules must include source_type, target_concept, id_field, and entity_fields"@)
        } else {
            None
        },
    }
}

impl ExternalMappingProvider for SharePointMockProvider {
    type Mapping = ExternalMappingDocument;

    fn validate_mapping(&self, parsed: Result<ExternalMappingDocument, String>) -> (r: Result<(), ProviderError>)
        ensures
            match mapping_refusal(parsed) {
                None => r is Ok,
                Some(message) => r matches Err(ProviderError::Validation(m)) && m@ == message,
            },
    {
        let ghost pv = parsed;
        let doc = match parsed {
            Err(message) => {
                return Err(ProviderError::Validation(concat("invalid external mapping JSON: ", message.as_str())));
            },
            Ok(d) => d,
        };
        if !same_text(doc.schema.as_str(), "greentic.sorla.external-mapping.v1") {
            return Err(ProviderError::Validation(owned("unsupported external mapping schema")));
        }
        if !same_text(doc.provider_id.as_str(), SHAREPOINT_PROVIDER_ID) {
            return Err(ProviderError::Validation(owned("external mapping provider_id does not match sharepoint mock")));
        }
        if doc.mappings.len() == 0 {
            return Err(ProviderError::Validation(owned("external mapping must include at least one mapping")));
        }
        let n = doc.mappings.len();
        for i in 0..n
            invariant
                n == doc.mappings@.len(),
                pv == Ok::<ExternalMappingDocument, String>(doc),
                pv == parsed,
                doc.schema@ == "greentic.sorla.external-mapping.v1"@,
                doc.provider_id@ == SHAREPOINT_PROVIDER_ID@,
                n > 0,
                forall|j: int| 0 <= j < i ==> !rule_incomplete(#[trigger] doc.mappings@[j]),
        {
            let rule = &doc.mappings[i];
            if is_blank(rule.source_type.as_str()) || is_blank(rule.target_concept.as_str()) || is_blank(rule.id_field.as_str())
                || rule.entity_fields.len() == 0 {
                assert(rule_incomplete(doc.mappings@[i as int]));
                return Err(ProviderError::Validation(owned("external mapping rules must include source_type, target_concept, id_field, and entity_fields")));
            }
        }
        Ok(())
    }
}

/// The order of linked documents: entity id, then source reference.
pub open spec fn document_link_key(l: EntityLink) -> Seq<Option<Seq<char>>> {
    seq![Some(l.entity.entity_id@), Some(l.source_ref@)]
}

/// Two links to the same entity from the same source.
pub open spec fn same_link_target(a: EntityLink, b: EntityLink) -> bool {
    &&& a.entity.entity_type@ == b.entity.entity_type@
    &&& a.entity.entity_id@ == b.entity.entity_id@
    &&& opt_view(a.entity.namespace) == opt_view(b.entity.namespace)
    &&& opt_view(a.entity.version) == opt_view(b.entity.version)
    &&& a.source_ref@ == b.source_ref@
}

/// At most two links, ordered by entity id and source, with a duplicate
/// dropped, keeping those of the candidate types (all when none are given).
pub open spec fn arrange_links(ls: Seq<EntityLink>, candidate_types: Seq<String>) -> Seq<EntityLink> {
    let sorted = if ls.len() == 2 && parts_lt(document_link_key(ls[1]), document_link_key(ls[0])) {
        seq![ls[1], ls[0]]
    } else {
        ls
    };
    let deduped = if sorted.len() == 2 && same_link_target(sorted[0], sorted[1]) {
        seq![sorted[0]]
    } else {
        sorted
    };
    deduped.filter(|l: EntityLink| candidate_types.len() == 0 || texts_contain(candidate_types, l.entity.entity_type@))
}

fn document_link_key_exec(l: &EntityLink) -> (k: crate::tuple_key::TupleKey)
    ensures
        k.parts_view() == document_link_key(*l),
{
    let mut parts: Vec<Option<String>> = Vec::new();
    parts.push(Some(l.entity.entity_id.clone()));
    parts.push(Some(l.source_ref.clone()));
    let k = crate::tuple_key::TupleKey { parts };
    assert(k.parts_view() =~= document_link_key(*l));
    k
}

fn opt_same_text(a: &Option<String>, b: &Option<String>) -> (r: bool)
    ensures
        r == (opt_view(*a) == opt_view(*b)),
{
    match (a, b) {
        (None, None) => true,
        (Some(x), Some(y)) => same_text(x.as_str(), y.as_str()),
        _ => false,
    }
}

fn same_link_target_exec(a: &EntityLink, b: &EntityLink) -> (r: bool)
    ensures
        r == same_link_target(*a, *b),
{
    same_text(a.entity.entity_type.as_str(), b.entity.entity_type.as_str())
        && same_text(a.entity.entity_id.as_str(), b.entity.entity_id.as_str())
        && opt_same_text(&a.entity.namespace, &b.entity.namespace)
        && opt_same_text(&a.entity.version, &b.entity.version)
        && same_text(a.source_ref.as_str(), b.source_ref.as_str())
}

fn arrange(mut ls: Vec<EntityLink>, candidate_types: &Vec<String>) -> (out: Vec<EntityLink>)
    requires
        ls@.len() <= 2,
    ensures
        out@ == arrange_links(ls@, candidate_types@),
{
    let ghost l0 = ls@;
    if ls.len() == 2 {
        let k1 = document_link_key_exec(&ls[1]);
        let k0 = document_link_key_exec(&ls[0]);
        if crate::sort::SortKey::key_less(&k1, &k0) {
            let second = ls.remove(1);
            ls.insert(0, second);
            assert(ls@ =~= seq![l0[1], l0[0]]);
        }
    }
    let ghost sorted = ls@;
    if ls.len() == 2 && same_link_target_exec(&ls[0], &ls[1]) {
        ls.pop();
        assert(ls@ =~= seq![sorted[0]]);
    }
    let ghost deduped = ls@;
    let ghost pred = |l: EntityLink| candidate_types@.len() == 0 || texts_contain(candidate_types@, l.entity.entity_type@);
    let mut out: Vec<EntityLink> = Vec::new();
    let n = ls.len();
    for i in 0..n
        invariant
            n == deduped.len(),
            ls@ == deduped,
            pred == (|l: EntityLink| candidate_types@.len() == 0 || texts_contain(candidate_types@, l.entity.entity_type@)),
            out@ == deduped.take(i as int).filter(pred),
    {
        proof {
            assert(deduped.take(i + 1) =~= deduped.take(i as int).push(deduped[i as int]));
            deduped.take(i as int).lemma_filter_push(deduped[i as int], pred);
        }
        if candidate_types.len() == 0 || list_contains_text(candidate_types, ls[i].entity.entity_type.as_str()) {
            out.push(ls[i].clone());
        }
    }
    assert(deduped.take(n as int) =~= deduped);
    out
}

impl SharePointMockProvider {
    /// Links from a request's source reference and from the SharePoint
    /// record of its content. `content` is the outcome of parsing the
    /// request's content JSON, when it has one.
    pub fn link_entities(&self, request: EntityLinkRequest, content: Option<Result<SharePointMockRecord, String>>) -> (r: Result<Vec<EntityLink>, ProviderError>)
        ensures
            ({
                let tenant = self.config_view().tenant_id@;
                let bad_source = request.source_ref is Some && source_ref_entity(tenant, request.source_ref.unwrap()@) is None;
                match r {
                    Err(e) => {
                        &&& (bad_source || content matches Some(Err(_)))
                        &&& e is Validation
                        &&& !bad_source ==> (content matches Some(Err(message)) && (e matches ProviderError::Validation(m) && m@ == "invalid SharePoint mock content JSON: "@ + message@))
                    },
                    Ok(out) => {
                        &&& !bad_source
                        &&& !(content matches Some(Err(_)))
                        &&& exists|ls: Seq<EntityLink>| {
                            &&& ls.len() == (if request.source_ref is Some { 1int } else { 0int }) + (if content is Some { 1int } else { 0int })
                            &&& (request.source_ref is Some ==> is_document_link(
                                ls[0],
                                tenant,
                                source_ref_entity(tenant, request.source_ref.unwrap()@).unwrap(),
                                request.source_ref.unwrap()@,
                                None,
                            ))
                            &&& (content matches Some(Ok(record)) ==> {
                                let t = record_identity_text(tenant, record);
                                is_document_link(ls[ls.len() - 1], tenant, t.0, t.1, Some(t.2))
                            })
                            &&& out@ == arrange_links(ls, request.candidate_types@)
                        }
                    },
                }
            }),
    {
        let mut links: Vec<EntityLink> = Vec::new();
        match &request.source_ref {
            Some(source_ref) => {
                let link = self.link_from_source_ref(source_ref.as_str())?;
                links.push(link);
            },
            None => {},
        }
        match content {
            Some(Err(message)) => {
                return Err(ProviderError::Validation(concat("invalid SharePoint mock content JSON: ", message.as_str())));
            },
            Some(Ok(record)) => {
                let (entity_id, source_ref, metadata_json) = self.record_identity(&record);
                links.push(self.link_from_parts(entity_id, source_ref, Some(metadata_json)));
            },
            None => {},
        }
        let ghost ls = links@;
        let out = arrange(links, &request.candidate_types);
        Ok(out)
    }
}

/// The JSON schema of the SharePoint mock's configuration.
pub const SHAREPOINT_CONFIG_SCHEMA_JSON: &'static str = "{\"type\":\"object\",\"required\":[\"seed\",\"tenant_id\"],\"properties\":{\"seed\":{\"type\":\"string\"},\"tenant_id\":{\"type\":\"string\"}},\"additionalProperties\":false}";

/// `manifest` is the pack manifest of the SharePoint mock.
pub open spec fn is_sharepoint_pack_manifest(manifest: ProviderPackManifest) -> bool {
    exists|m: ProviderMetadata, artifacts: Seq<ArtifactReference>, runtimes: Seq<RuntimeComponentRef>, schema: ConfigSchemaRef|
        #![trigger manifest.built_from(m, artifacts, runtimes, schema)]
        {
            &&& manifest.built_from(m, artifacts, runtimes, schema)
            &&& is_sharepoint_metadata(m)
            &&& artifacts.len() == 1
            &&& artifacts[0].kind@ == "gtpack-json"@
            &&& artifacts[0].uri@ == "./"@ + package_dir_text(SHAREPOINT_PROVIDER_ID@) + ".gtpack.json"@
            &&& runtimes.len() == 1
            &&& runtimes[0].component_id@ == "sharepoint-mock-runtime"@
            &&& runtimes[0].kind@ == "service"@
            &&& runtimes[0].entrypoint@ == "provider-sharepoint-mock"@
            &&& runtimes[0].artifact_uri@ == oci_reference_text(SHAREPOINT_PROVIDER_ID@, SHAREPOINT_PROVIDER_VERSION@)
            &&& schema.format@ == "json-schema"@
            &&& schema.path@ == "schemas/provider-config.schema.json"@
            &&& schema.schema_json@ == SHAREPOINT_CONFIG_SCHEMA_JSON@
        }
}

/// The pack manifest of the SharePoint mock.
pub fn pack_manifest() -> (manifest: ProviderPackManifest)
    ensures
        is_sharepoint_pack_manifest(manifest),
{
    let metadata = sharepoint_metadata();
    let mut artifacts: Vec<ArtifactReference> = Vec::new();
    artifacts.push(ArtifactReference { kind: owned("gtpack-json"), uri: provider_artifact_file_uri(SHAREPOINT_PROVIDER_ID) });
    let mut runtimes: Vec<RuntimeComponentRef> = Vec::new();
    runtimes.push(provider_runtime_component(SHAREPOINT_PROVIDER_ID, SHAREPOINT_PROVIDER_VERSION, "sharepoint-mock-runtime", "provider-sharepoint-mock"));
    let schema = ConfigSchemaRef {
        format: owned("json-schema"),
        path: owned("schemas/provider-config.schema.json"),
        schema_json: owned(SHAREPOINT_CONFIG_SCHEMA_JSON),
    };
    let ghost a = artifacts@;
    let ghost r = runtimes@;
    let ghost s = schema;
    let manifest = ProviderPackManifest::from_metadata(&metadata, artifacts, runtimes, schema);
    assert(manifest.built_from(metadata, a, r, s));
    manifest
}

/// The catalog entry of the SharePoint mock, made from its manifest.
pub open spec fn is_sharepoint_catalog_entry(entry: ProviderCatalogEntry, manifest: ProviderPackManifest) -> bool {
    &&& entry.provider_id == manifest.provider_id
    &&& entry.provider_version == manifest.provider_version
    &&& entry.provider_kind == manifest.provider_kind
    &&& entry.capabilities@ == manifest.capabilities@
    &&& entry.tags@.map_values(|t: String| t@) == seq!["external-ref"@, "mock"@]
    &&& entry.is_mock == manifest.is_mock
    &&& entry.status == manifest.status
    &&& entry.supported_provider_contract_version == manifest.supported_provider_contract_version
    &&& entry.supported_sorla_ir == manifest.supported_sorla_ir
    &&& entry.supported_sorla_ir_range == manifest.supported_sorla_ir_range
    &&& entry.config_schema_path == manifest.config_schema.path
    &&& entry.artifact_uri == (if manifest.artifact_references@.len() > 0 {
        Some(manifest.artifact_references@[0].uri)
    } else {
        None
    })
    &&& entry.oci_reference == manifest.oci_reference
    &&& match (entry.ontology, manifest.ontology_capabilities) {
        (None, None) => true,
        (Some(e), Some(o)) => {
            &&& e.capabilities@ == seq![ProviderCapability::EntityLink]
            &&& e.max_traversal_depth is None
            &&& e.supports_generic_entity_refs
            &&& e.supported_ontology_schema == o.compatibility.supported_ontology_schema
            &&& e.supported_ontology_schema_range == o.compatibility.supported_ontology_schema_range
            &&& e.supported_retrieval_binding_schema == o.compatibility.supported_retrieval_binding_schema
            &&& e.supported_external_mapping_schema == o.compatibility.supported_external_mapping_schema
        },
        _ => false,
    }
}

/// The catalog entry of the SharePoint mock.
pub fn catalog_entry() -> (entry: ProviderCatalogEntry)
    ensures
        exists|manifest: ProviderPackManifest|
            #[trigger] is_sharepoint_pack_manifest(manifest) && is_sharepoint_catalog_entry(entry, manifest),
{
    let manifest = pack_manifest();
    let ghost mv = manifest;
    let artifact_uri = if manifest.artifact_references.len() > 0 {
        Some(manifest.artifact_references[0].uri.clone())
    } else {
        None
    };
    let ontology = match &manifest.ontology_capabilities {
        Some(o) => {
            let mut capabilities: Vec<ProviderCapability> = Vec::new();
            capabilities.push(ProviderCapability::EntityLink);
            assert(capabilities@ =~= seq![ProviderCapability::EntityLink]);
            Some(
                ProviderCatalogOntology {
                    capabilities,
                    max_traversal_depth: None,
                    supports_generic_entity_refs: true,
                    supported_ontology_schema: o.compatibility.supported_ontology_schema.clone(),
                    supported_ontology_schema_range: o.compatibility.supported_ontology_schema_range.clone(),
                    supported_retrieval_binding_schema: o.compatibility.supported_retrieval_binding_schema.clone(),
                    supported_external_mapping_schema: o.compatibility.supported_external_mapping_schema.clone(),
                },
            )
        },
        None => None,
    };
    let mut tags: Vec<String> = Vec::new();
    tags.push(owned("external-ref"));
    tags.push(owned("mock"));
    let capabilities = manifest.capabilities.clone();
    let entry = ProviderCatalogEntry {
        provider_id: manifest.provider_id,
        provider_version: manifest.provider_version,
        provider_kind: manifest.provider_kind,
        capabilities,
        tags,
        is_mock: manifest.is_mock,
        status: manifest.status,
        supported_provider_contract_version: manifest.supported_provider_contract_version,
        supported_sorla_ir: manifest.supported_sorla_ir,
        supported_sorla_ir_range: manifest.supported_sorla_ir_range,
        config_schema_path: manifest.config_schema.path,
        artifact_uri,
        oci_reference: manifest.oci_reference,
        ontology,
    };
    assert(entry.tags@.map_values(|t: String| t@) =~= seq!["external-ref"@, "mock"@]);
    assert(entry.capabilities@ =~= mv.capabilities@);
    assert(is_sharepoint_catalog_entry(entry, mv));
    entry
}

} // verus!
