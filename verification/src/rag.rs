//! The deterministic RAG mock provider: a fixed set of seed documents,
//! filtered by building, floor, document and source type, turned into
//! evidence drafts keyed by a seeded hash.
use vstd::prelude::*;

use crate::catalog::{entry_for_manifest, marker_tag, tags_text, ProviderCatalogEntry};
use crate::fnv::{fnv1a, fnv1a_text};
use crate::json_text::{json_member, json_object, json_object_text, json_opt, json_opt_string, json_quoted, json_string};
use crate::pack::{
    oci_reference_text, package_dir_text, provider_artifact_file_uri, provider_runtime_component,
    ArtifactReference, ConfigSchemaRef, ProviderPackManifest, RuntimeComponentRef,
};
use crate::text::{
    concat, contains_text, decimal, decimal_string, is_blank, is_blank_text, is_white_space,
    owned, padded_hex, padded_hex_string, push_str, same_text, text_contains,
};
use crate::traits::{ConfigValidator, ProviderHealth, ProviderMetadataSource};
use crate::tuple_key::opt_view;
use crate::types::{
    ContractCompatibility, HealthReport, HealthState, PackEmission, ProviderCapability,
    ProviderError, ProviderMetadata, ProviderStatus, SORLA_PROVIDER_CONTRACT_VERSION,
};
use vstd::utf8::encode_utf8;

verus! {

/// Identity of the RAG mock provider.
pub const RAG_PROVIDER_ID: &'static str = "greentic.sorla.provider.rag-mock";

/// Version of the RAG mock provider.
pub const RAG_PROVIDER_VERSION: &'static str = "0.1.4";

/// Seed and result cap of the RAG mock.
#[derive(Debug, PartialEq, Eq)]
pub struct RagMockConfig {
    pub seed: String,
    pub max_results: usize,
}

/// One of the mock's seed documents.
#[derive(Debug, PartialEq, Eq)]
pub struct RagSeedDocument {
    pub source_type: String,
    pub document_type: String,
    pub document_id: String,
    pub building_id: String,
    pub floor_id: Option<String>,
    pub title: String,
    pub section_id: Option<String>,
    pub page: Option<u32>,
}

/// The evidence filter the RAG mock understands: each given field must match.
#[derive(Debug, Default, PartialEq, Eq)]
pub struct RagEvidenceFilter {
    pub building_id: Option<String>,
    pub floor_id: Option<String>,
    pub document_type: Option<String>,
    pub source_type: Option<String>,
}

/// Every text field of an evidence item; its score is computed apart.
#[derive(Debug, PartialEq, Eq)]
pub struct RagEvidenceDraft {
    pub evidence_id: String,
    pub source_type: String,
    pub source_ref: String,
    pub document_id: String,
    pub section_id: Option<String>,
    pub page: Option<u32>,
    pub chunk_id: String,
    pub snippet: String,
    pub provenance: String,
    pub metadata_json: String,
}

/// What a document's score is made of: which boosts apply, and the jitter
/// (hundredths) derived from the hash.
#[derive(Debug, PartialEq, Eq)]
pub struct RagScoreSignals {
    pub source_type_hit: bool,
    pub building_hit: bool,
    pub floor_hit: bool,
    pub title_token_hit: bool,
    pub jitter: u64,
}

/// The deterministic RAG mock provider.
pub struct RagMockProvider {
    config: RagMockConfig,
}

/// The text of an optional string, empty when absent.
pub open spec fn rag_or_empty(o: Option<String>) -> Seq<char> {
    match o {
        Some(s) => s@,
        None => Seq::empty(),
    }
}

/// The hash of a query and a document: FNV-1a over seed, query text,
/// document id, source type, building and floor.
pub open spec fn evidence_hash(seed: Seq<char>, query: Seq<char>, doc: RagSeedDocument) -> u64 {
    fnv1a(
        encode_utf8(
            seed + query + doc.document_id@ + doc.source_type@ + doc.building_id@ + rag_or_empty(
                doc.floor_id,
            ),
        ),
    )
}

/// A seed document with the given texts.
pub open spec fn is_seed(
    d: RagSeedDocument,
    source_type: Seq<char>,
    document_id: Seq<char>,
    building_id: Seq<char>,
    floor_id: Seq<char>,
    title: Seq<char>,
    section_id: Option<Seq<char>>,
    page: u32,
) -> bool {
    &&& d.source_type@ == source_type
    &&& d.document_type@ == source_type
    &&& d.document_id@ == document_id
    &&& d.building_id@ == building_id
    &&& opt_view(d.floor_id) == Some(floor_id)
    &&& d.title@ == title
    &&& opt_view(d.section_id) == section_id
    &&& d.page == Some(page)
}

/// The four seed documents, in order.
pub open spec fn is_seed_set(docs: Seq<RagSeedDocument>) -> bool {
    &&& docs.len() == 4
    &&& is_seed(docs[0], "btg"@, "btg-building-kafd-01"@, "building-kafd-01"@, "floor-07"@, "BTG smoke control review"@, Some("section-smoke-control"@), 12)
    &&& is_seed(docs[1], "rfi"@, "rfi-building-kafd-01"@, "building-kafd-01"@, "floor-07"@, "RFI damper access clarification"@, None, 3)
    &&& is_seed(docs[2], "site-visit"@, "visit-building-kafd-01"@, "building-kafd-01"@, "floor-07"@, "Site visit field notes"@, None, 1)
    &&& is_seed(docs[3], "btg"@, "btg-building-kafd-02"@, "building-kafd-02"@, "floor-03"@, "BTG alarm zoning summary"@, Some("section-alarm-zoning"@), 6)
}

/// Whether a document passes every field the filter gives.
pub open spec fn passes_filter(doc: RagSeedDocument, filter: RagEvidenceFilter) -> bool {
    &&& (filter.building_id is None || filter.building_id.unwrap()@ == doc.building_id@)
    &&& (filter.floor_id is None || opt_view(doc.floor_id) == opt_view(filter.floor_id))
    &&& (filter.document_type is None || filter.document_type.unwrap()@ == doc.document_type@)
    &&& (filter.source_type is None || filter.source_type.unwrap()@ == doc.source_type@)
}

/// A filter keeps a document exactly when every field it gives agrees with
/// the document: a filter that gives nothing keeps every document, a filter
/// of the document's own fields keeps it, and a filter that names another
/// building, floor, document type or source type, or a floor for a document
/// without one, drops it.
pub proof fn law_filter_fields_must_agree(doc: RagSeedDocument, filter: RagEvidenceFilter)
    ensures
        filter.building_id is None && filter.floor_id is None && filter.document_type is None
            && filter.source_type is None ==> passes_filter(doc, filter),
        opt_view(filter.building_id) == Some(doc.building_id@) && opt_view(filter.floor_id) == opt_view(doc.floor_id)
            && opt_view(filter.document_type) == Some(doc.document_type@) && opt_view(filter.source_type) == Some(
            doc.source_type@,
        ) ==> passes_filter(doc, filter),
        filter.building_id matches Some(b) && b@ != doc.building_id@ ==> !passes_filter(doc, filter),
        filter.floor_id matches Some(f) && (doc.floor_id is None || doc.floor_id.unwrap()@ != f@) ==> !passes_filter(doc, filter),
        filter.document_type matches Some(t) && t@ != doc.document_type@ ==> !passes_filter(doc, filter),
        filter.source_type matches Some(t) && t@ != doc.source_type@ ==> !passes_filter(doc, filter),
{
}

/// ASCII letters in lower case, everything else unchanged.
pub open spec fn ascii_lower_char(c: char) -> char {
    if 'A' <= c <= 'Z' {
        ((c as u32) + 32) as char
    } else {
        c
    }
}

/// `str::to_ascii_lowercase`.
pub open spec fn ascii_lower_text(s: Seq<char>) -> Seq<char> {
    s.map_values(|c: char| ascii_lower_char(c))
}

/// The white-space separated words of a text (`str::split_whitespace`), as
/// (start, end) positions.
pub open spec fn is_word(s: Seq<char>, i: int, j: int) -> bool {
    &&& 0 <= i < j <= s.len()
    &&& forall|k: int| i <= k < j ==> !is_white_space(#[trigger] s[k])
    &&& (i == 0 || is_white_space(s[i - 1]))
    &&& (j == s.len() || is_white_space(s[j]))
}

/// Some word of `title` occurs in `query`.
pub open spec fn some_word_occurs(title: Seq<char>, query: Seq<char>) -> bool {
    exists|i: int, j: int| #[trigger] is_word(title, i, j) && contains_text(query, title.subrange(i, j))
}

/// The score signals of a document for a query.
pub open spec fn is_signals_for(s: RagScoreSignals, seed: Seq<char>, query: Seq<char>, doc: RagSeedDocument) -> bool {
    let q = ascii_lower_text(query);
    &&& s.source_type_hit == contains_text(q, doc.source_type@)
    &&& s.building_hit == contains_text(q, ascii_lower_text(doc.building_id@))
    &&& s.floor_hit == (doc.floor_id is Some && contains_text(q, ascii_lower_text(doc.floor_id.unwrap()@)))
    &&& s.title_token_hit == some_word_occurs(ascii_lower_text(doc.title@), q)
    &&& s.jitter == evidence_hash(seed, query, doc) % 10
}

/// The evidence draft of a document for a query.
pub open spec fn is_draft_for(e: RagEvidenceDraft, seed: Seq<char>, query: Seq<char>, doc: RagSeedDocument) -> bool {
    let h = evidence_hash(seed, query, doc);
    &&& e.evidence_id@ == "evidence-"@ + padded_hex(h as nat, 16)
    &&& e.source_type == doc.source_type
    &&& e.source_ref@ == "sharepoint://"@ + doc.building_id@ + "/"@ + doc.document_id@
    &&& e.document_id == doc.document_id
    &&& e.section_id == doc.section_id
    &&& e.page == doc.page
    &&& e.chunk_id@ == "chunk-"@ + padded_hex(h as nat, 16)
    &&& e.snippet@ == doc.title@ + " for "@ + doc.building_id@ + " highlights "@ + query + " on "@
        + match doc.floor_id {
        Some(f) => f@,
        None => "shared levels"@,
    } + "."@
    &&& e.provenance@ == "source="@ + doc.source_type@ + " document="@ + doc.document_id@
        + " section="@ + match doc.section_id {
        Some(s) => s@,
        None => "n/a"@,
    } + " page="@ + decimal(match doc.page {
        Some(p) => p as nat,
        None => 0nat,
    }) + " seed="@ + seed
    &&& e.metadata_json@ == json_object(seq![
        json_member("building_id"@, json_quoted(doc.building_id@)),
        json_member("document_type"@, json_quoted(doc.document_type@)),
        json_member("floor_id"@, json_opt(doc.floor_id)),
        json_member("title"@, json_quoted(doc.title@)),
    ])
}

fn seed(source_type: &str, document_id: &str, building_id: &str, floor_id: &str, title: &str, section_id: Option<&str>, page: u32) -> (d: RagSeedDocument)
    ensures
        is_seed(d, source_type@, document_id@, building_id@, floor_id@, title@, match section_id {
            Some(s) => Some(s@),
            None => None,
        }, page),
{
    RagSeedDocument {
        source_type: owned(source_type),
        document_type: owned(source_type),
        document_id: owned(document_id),
        building_id: owned(building_id),
        floor_id: Some(owned(floor_id)),
        title: owned(title),
        section_id: match section_id {
            Some(s) => Some(owned(s)),
            None => None,
        },
        page: Some(page),
    }
}

pub(crate) fn lower_text(s: &str) -> (out: String)
    ensures
        out@ == ascii_lower_text(s@),
{
    let cs = crate::text::chars_of(s);
    let mut out = String::new();
    let n = cs.len();
    for i in 0..n
        invariant
            n == cs@.len(),
            cs@ == s@,
            out@ == ascii_lower_text(s@.take(i as int)),
    {
        let c = cs[i];
        let l = if 'A' <= c && c <= 'Z' {
            ((c as u8) + 32) as char
        } else {
            c
        };
        proof {
            if 'A' <= c && c <= 'Z' {
                assert(((c as u8) + 32) as char == ((c as u32) + 32) as char);
            }
        }
        crate::text::push_char(&mut out, l);
        assert(out@ =~= ascii_lower_text(s@.take(i + 1)));
    }
    assert(s@.take(n as int) =~= s@);
    out
}

impl RagMockProvider {
    /// The configuration the provider was made with.
    pub closed spec fn config_view(self) -> RagMockConfig {
        self.config
    }

    pub fn new(config: RagMockConfig) -> (p: Self)
        ensures
            p.config_view() == config,
    {
        RagMockProvider { config }
    }

    /// The provider with the test seed and eight results at most.
    pub fn for_tests() -> (p: Self)
        ensures
            p.config_view().seed@ == "greentic-sorla-rag-mock"@,
            p.config_view().max_results == 8,
    {
        Self::new(RagMockConfig { seed: owned("greentic-sorla-rag-mock"), max_results: 8 })
    }

    /// FNV-1a over seed, query text, document id, source type, building and floor.
    pub fn stable_hash(&self, query: &str, doc: &RagSeedDocument) -> (h: u64)
        ensures
            h == evidence_hash(self.config_view().seed@, query@, *doc),
    {
        let mut text = self.config.seed.clone();
        push_str(&mut text, query);
        push_str(&mut text, doc.document_id.as_str());
        push_str(&mut text, doc.source_type.as_str());
        push_str(&mut text, doc.building_id.as_str());
        match &doc.floor_id {
            Some(f) => push_str(&mut text, f.as_str()),
            None => {},
        }
        assert(text@ =~= self.config.seed@ + query@ + doc.document_id@ + doc.source_type@ + doc.building_id@ + rag_or_empty(doc.floor_id));
        fnv1a_text(&text)
    }

    /// The mock's seed documents.
    pub fn seed_documents(&self) -> (docs: Vec<RagSeedDocument>)
        ensures
            is_seed_set(docs@),
    {
        let mut docs: Vec<RagSeedDocument> = Vec::new();
        docs.push(seed("btg", "btg-building-kafd-01", "building-kafd-01", "floor-07", "BTG smoke control review", Some("section-smoke-control"), 12));
        docs.push(seed("rfi", "rfi-building-kafd-01", "building-kafd-01", "floor-07", "RFI damper access clarification", None, 3));
        docs.push(seed("site-visit", "visit-building-kafd-01", "building-kafd-01", "floor-07", "Site visit field notes", None, 1));
        docs.push(seed("btg", "btg-building-kafd-02", "building-kafd-02", "floor-03", "BTG alarm zoning summary", Some("section-alarm-zoning"), 6));
        docs
    }

    /// Whether a document passes every field the filter gives.
    pub fn matches_filter(doc: &RagSeedDocument, filter: &RagEvidenceFilter) -> (r: bool)
        ensures
            r == passes_filter(*doc, *filter),
    {
        match &filter.building_id {
            Some(b) => {
                if !same_text(b.as_str(), doc.building_id.as_str()) {
                    return false;
                }
            },
            None => {},
        }
        match &filter.floor_id {
            Some(f) => match &doc.floor_id {
                Some(df) => {
                    if !same_text(f.as_str(), df.as_str()) {
                        return false;
                    }
                },
                None => {
                    return false;
                },
            },
            None => {},
        }
        match &filter.document_type {
            Some(t) => {
                if !same_text(t.as_str(), doc.document_type.as_str()) {
                    return false;
                }
            },
            None => {},
        }
        match &filter.source_type {
            Some(t) => {
                if !same_text(t.as_str(), doc.source_type.as_str()) {
                    return false;
                }
            },
            None => {},
        }
        true
    }

    /// The seed documents that pass the filter, in seed order.
    pub fn matching_documents(&self, filter: &RagEvidenceFilter) -> (docs: Vec<RagSeedDocument>)
        ensures
            exists|all: Seq<RagSeedDocument>| #[trigger] is_seed_set(all) && docs@ == all.filter(|d: RagSeedDocument| passes_filter(d, *filter)),
    {
        let mut all = self.seed_documents();
        let ghost av = all@;
        let ghost pred = |d: RagSeedDocument| passes_filter(d, *filter);
        let mut out: Vec<RagSeedDocument> = Vec::new();
        let mut i: usize = 0;
        while all.len() > 0
            invariant
                i + all@.len() == av.len(),
                av.len() == 4,
                all@ == av.skip(i as int),
                pred == (|d: RagSeedDocument| passes_filter(d, *filter)),
                out@ == av.take(i as int).filter(pred),
            decreases all.len(),
        {
            let doc = all.remove(0);
            proof {
                assert(av.skip(i as int).remove(0) =~= av.skip(i + 1));
                assert(doc == av[i as int]);
                assert(av.take(i + 1) =~= av.take(i as int).push(doc));
                av.take(i as int).lemma_filter_push(doc, pred);
            }
            if Self::matches_filter(&doc, filter) {
                out.push(doc);
            }
            i = i + 1;
        }
        assert(av.take(i as int) =~= av);
        out
    }

    /// The text fields of the evidence item a document gives for a query.
    pub fn evidence_draft(&self, query: &str, doc: &RagSeedDocument) -> (e: RagEvidenceDraft)
        ensures
            is_draft_for(e, self.config_view().seed@, query@, *doc),
    {
        let hash = self.stable_hash(query, doc);
        let hex = padded_hex_string(hash, 16);
        let mut source_ref = owned("sharepoint://");
        push_str(&mut source_ref, doc.building_id.as_str());
        push_str(&mut source_ref, "/");
        push_str(&mut source_ref, doc.document_id.as_str());
        let mut snippet = doc.title.clone();
        push_str(&mut snippet, " for ");
        push_str(&mut snippet, doc.building_id.as_str());
        push_str(&mut snippet, " highlights ");
        push_str(&mut snippet, query);
        push_str(&mut snippet, " on ");
        match &doc.floor_id {
            Some(f) => push_str(&mut snippet, f.as_str()),
            None => push_str(&mut snippet, "shared levels"),
        }
        push_str(&mut snippet, ".");
        let mut provenance = owned("source=");
        push_str(&mut provenance, doc.source_type.as_str());
        push_str(&mut provenance, " document=");
        push_str(&mut provenance, doc.document_id.as_str());
        push_str(&mut provenance, " section=");
        match &doc.section_id {
            Some(s) => push_str(&mut provenance, s.as_str()),
            None => push_str(&mut provenance, "n/a"),
        }
        push_str(&mut provenance, " page=");
        let page: u64 = match doc.page {
            Some(p) => p as u64,
            None => 0,
        };
        push_str(&mut provenance, decimal_string(page).as_str());
        push_str(&mut provenance, " seed=");
        push_str(&mut provenance, self.config.seed.as_str());
        let mut members: Vec<String> = Vec::new();
        members.push(member("building_id", json_string(doc.building_id.as_str())));
        members.push(member("document_type", json_string(doc.document_type.as_str())));
        members.push(member("floor_id", json_opt_string(&doc.floor_id)));
        members.push(member("title", json_string(doc.title.as_str())));
        proof {
            assert(members@.map_values(|m: String| m@) =~= seq![
                json_member("building_id"@, json_quoted(doc.building_id@)),
                json_member("document_type"@, json_quoted(doc.document_type@)),
                json_member("floor_id"@, json_opt(doc.floor_id)),
                json_member("title"@, json_quoted(doc.title@)),
            ]);
        }
        let metadata_json = json_object_text(&members);
        RagEvidenceDraft {
            evidence_id: concat("evidence-", hex.as_str()),
            source_type: doc.source_type.clone(),
            source_ref,
            document_id: doc.document_id.clone(),
            section_id: match &doc.section_id {
                Some(s) => Some(s.clone()),
                None => None,
            },
            page: doc.page,
            chunk_id: concat("chunk-", hex.as_str()),
            snippet,
            provenance,
            metadata_json,
        }
    }
}

fn member(key: &str, value: String) -> (m: String)
    ensures
        m@ == json_member(key@, value@),
{
    let mut m = owned("\"");
    push_str(&mut m, key);
    push_str(&mut m, "\":");
    push_str(&mut m, value.as_str());
    proof {
        reveal_strlit("\"");
        reveal_strlit("\":");
    }
    assert(m@ =~= json_member(key@, value@));
    m
}

/// The number of evidence items a query returns at most: its limit, capped by
/// the configured maximum, and at least one.
pub open spec fn evidence_limit_value(limit: usize, max_results: usize) -> usize {
    let m = if limit < max_results {
        limit
    } else {
        max_results
    };
    if m < 1 {
        1
    } else {
        m
    }
}

/// The evidence limit is the largest count that exceeds neither the query's
/// limit nor the configured maximum, and at least one:
/// it reaches one of them, and it exceeds one of them only when it is 1.
pub proof fn law_evidence_limit_is_largest_allowed(limit: usize, max_results: usize)
    ensures
        evidence_limit_value(limit, max_results) >= 1,
        evidence_limit_value(limit, max_results) == 1 || (evidence_limit_value(limit, max_results) <= limit
            && evidence_limit_value(limit, max_results) <= max_results),
        evidence_limit_value(limit, max_results) >= limit || evidence_limit_value(limit, max_results) >= max_results,
        1 <= limit <= max_results ==> evidence_limit_value(limit, max_results) == limit,
{
}

impl RagMockProvider {
    /// The number of evidence items a query returns at most.
    pub fn evidence_limit(&self, limit: usize) -> (n: usize)
        ensures
            n == evidence_limit_value(limit, self.config_view().max_results),
    {
        let m = if limit < self.config.max_results {
            limit
        } else {
            self.config.max_results
        };
        if m < 1 {
            1
        } else {
            m
        }
    }
}

fn white_space(c: char) -> (r: bool)
    ensures
        r == is_white_space(c),
{
    ('\u{9}' <= c && c <= '\u{d}') || c == ' ' || c == '\u{85}' || c == '\u{a0}' || c
        == '\u{1680}' || ('\u{2000}' <= c && c <= '\u{200a}') || c == '\u{2028}' || c
        == '\u{2029}' || c == '\u{202f}' || c == '\u{205f}' || c == '\u{3000}'
}

proof fn lemma_word_end_unique(s: Seq<char>, a: int, b: int, b2: int)
    requires
        is_word(s, a, b),
        is_word(s, a, b2),
    ensures
        b == b2,
{
    if b < b2 {
        assert(!is_white_space(s[b]));
    } else if b2 < b {
        assert(!is_white_space(s[b2]));
    }
}

/// Whether some word of `title` occurs in `query`.
fn any_word_occurs(title: &str, query: &str) -> (r: bool)
    ensures
        r == some_word_occurs(title@, query@),
{
    let cs = crate::text::chars_of(title);
    let ghost s = title@;
    let n = cs.len();
    let mut i: usize = 0;
    while i < n
        invariant
            cs@ == s,
            s == title@,
            n == s.len(),
            i <= n,
            i == 0 || i == n || is_white_space(s[i - 1]) || is_white_space(s[i as int]),
            forall|a: int, b: int| #[trigger] is_word(s, a, b) && a < i ==> !contains_text(query@, s.subrange(a, b)),
        decreases n - i,
    {
        if white_space(cs[i]) {
            proof {
                assert forall|a: int, b: int| #[trigger] is_word(s, a, b) && a < i + 1 implies !contains_text(query@, s.subrange(a, b)) by {
                    if a == i {
                        assert(!is_white_space(s[a]));
                    }
                }
            }
            i = i + 1;
        } else {
            let start = i;
            let mut j = i;
            while j < n && !white_space(cs[j])
                invariant
                    cs@ == s,
                    n == s.len(),
                    start <= j <= n,
                    forall|k: int| start <= k < j ==> !is_white_space(#[trigger] s[k]),
                decreases n - j,
            {
                j = j + 1;
            }
            assert(is_word(s, start as int, j as int));
            let word = crate::text::string_of_range(cs.as_slice(), start, j);
            if text_contains(query, word.as_str()) {
                assert(word@ == s.subrange(start as int, j as int));
                assert(is_word(title@, start as int, j as int));
                assert(contains_text(query@, title@.subrange(start as int, j as int)));
                return true;
            }
            proof {
                assert forall|a: int, b: int| #[trigger] is_word(s, a, b) && a < j implies !contains_text(query@, s.subrange(a, b)) by {
                    if a == start {
                        lemma_word_end_unique(s, a, b, j as int);
                    } else if start < a {
                        assert(!is_white_space(s[a - 1]));
                    }
                }
            }
            i = j;
        }
    }
    false
}

impl RagMockProvider {
    /// The score signals of a document for a query.
    pub fn score_signals(&self, query: &str, doc: &RagSeedDocument) -> (s: RagScoreSignals)
        ensures
            is_signals_for(s, self.config_view().seed@, query@, *doc),
    {
        let q = lower_text(query);
        let source_type_hit = text_contains(q.as_str(), doc.source_type.as_str());
        let building_hit = text_contains(q.as_str(), lower_text(doc.building_id.as_str()).as_str());
        let floor_hit = match &doc.floor_id {
            Some(f) => text_contains(q.as_str(), lower_text(f.as_str()).as_str()),
            None => false,
        };
        let title = lower_text(doc.title.as_str());
        let title_token_hit = any_word_occurs(title.as_str(), q.as_str());
        RagScoreSignals {
            source_type_hit,
            building_hit,
            floor_hit,
            title_token_hit,
            jitter: self.stable_hash(query, doc) % 10,
        }
    }
}

/// The capabilities the RAG mock advertises, in order.
pub open spec fn rag_capabilities() -> Seq<ProviderCapability> {
    seq![
        ProviderCapability::EvidenceQuery,
        ProviderCapability::EvidenceResolve,
        ProviderCapability::HealthCheck,
        ProviderCapability::ConfigValidate,
        ProviderCapability::PackMetadataEmit,
    ]
}

/// The metadata of the RAG mock.
pub open spec fn is_rag_metadata(m: ProviderMetadata) -> bool {
    &&& m.provider_id@ == RAG_PROVIDER_ID@
    &&& m.display_name@ == "RAG Mock"@
    &&& m.provider_kind@ == "evidence"@
    &&& m.version@ == RAG_PROVIDER_VERSION@
    &&& m.status == ProviderStatus::Experimental
    &&& m.is_mock
    &&& m.capabilities@ == rag_capabilities()
    &&& m.compatibility.supported_provider_contract_version@ == SORLA_PROVIDER_CONTRACT_VERSION@
    &&& m.compatibility.supported_sorla_ir@ == "0.1"@
    &&& m.compatibility.supported_sorla_ir_range@ == ">=0.1, <0.2"@
    &&& m.ontology_capabilities is None
}

fn rag_metadata() -> (m: ProviderMetadata)
    ensures
        is_rag_metadata(m),
{
    let mut capabilities: Vec<ProviderCapability> = Vec::new();
    capabilities.push(ProviderCapability::EvidenceQuery);
    capabilities.push(ProviderCapability::EvidenceResolve);
    capabilities.push(ProviderCapability::HealthCheck);
    capabilities.push(ProviderCapability::ConfigValidate);
    capabilities.push(ProviderCapability::PackMetadataEmit);
    assert(capabilities@ =~= rag_capabilities());
    ProviderMetadata {
        provider_id: owned(RAG_PROVIDER_ID),
        display_name: owned("RAG Mock"),
        provider_kind: owned("evidence"),
        version: owned(RAG_PROVIDER_VERSION),
        status: ProviderStatus::Experimental,
        is_mock: true,
        capabilities,
        compatibility: ContractCompatibility::new(SORLA_PROVIDER_CONTRACT_VERSION, "0.1", ">=0.1, <0.2"),
        ontology_capabilities: None,
    }
}

impl ProviderMetadataSource for RagMockProvider {
    fn metadata(&self) -> (m: ProviderMetadata)
        ensures
            is_rag_metadata(m),
    {
        rag_metadata()
    }

    fn pack_emission(&self) -> (e: PackEmission)
        ensures
            e.provider_id@ == RAG_PROVIDER_ID@,
            e.artifact_ref@ == "file://generated/provider-rag-mock.gtpack"@,
    {
        PackEmission {
            provider_id: self.metadata().provider_id,
            artifact_ref: owned("file://generated/provider-rag-mock.gtpack"),
        }
    }
}

impl ProviderHealth for RagMockProvider {
    fn health(&self) -> (r: Result<HealthReport, ProviderError>)
        ensures
            r matches Ok(report) && report.state == HealthState::Ready && report.message@
                == "RAG mock provider is ready with deterministic seed "@ + self.config_view().seed@
                + " and max_results "@ + decimal(self.config_view().max_results as nat),
    {
        let mut message = owned("RAG mock provider is ready with deterministic seed ");
        push_str(&mut message, self.config.seed.as_str());
        push_str(&mut message, " and max_results ");
        push_str(&mut message, decimal_string(self.config.max_results as u64).as_str());
        Ok(HealthReport { state: HealthState::Ready, message })
    }
}

/// Why a parsed RAG mock configuration is refused, if it is.
pub open spec fn rag_config_refusal(parsed: Result<RagMockConfig, String>) -> Option<Seq<char>> {
    match parsed {
        Err(message) => Some("invalid config JSON: "@ + message@),
        Ok(config) => if is_blank_text(config.seed@) {
            Some("seed must not be empty"@)
        } else if config.max_results == 0 {
            Some("max_results must be greater than zero"@)
        } else {
            None
        },
    }
}

impl ConfigValidator for RagMockProvider {
    type Config = RagMockConfig;

    fn validate_config(&self, parsed: Result<RagMockConfig, String>) -> (r: Result<(), ProviderError>)
        ensures
            match rag_config_refusal(parsed) {
                None => r is Ok,
                Some(message) => r matches Err(ProviderError::Validation(m)) && m@ == message,
            },
    {
        match parsed {
            Err(message) => Err(ProviderError::Validation(concat("invalid config JSON: ", message.as_str()))),
            Ok(config) => {
                if is_blank(config.seed.as_str()) {
                    return Err(ProviderError::Validation(owned("seed must not be empty")));
                }
                if config.max_results == 0 {
                    return Err(ProviderError::Validation(owned("max_results must be greater than zero")));
                }
                Ok(())
            },
        }
    }
}

/// The JSON schema of the RAG mock's configuration.
pub const RAG_CONFIG_SCHEMA_JSON: &'static str = "{\"type\":\"object\",\"required\":[\"seed\",\"max_results\"],\"properties\":{\"seed\":{\"type\":\"string\"},\"max_results\":{\"type\":\"integer\",\"minimum\":1}},\"additionalProperties\":false}";

/// `manifest` is the pack manifest of the RAG mock.
pub open spec fn is_rag_pack_manifest(manifest: ProviderPackManifest) -> bool {
    exists|m: ProviderMetadata, artifacts: Seq<ArtifactReference>, runtimes: Seq<RuntimeComponentRef>, schema: ConfigSchemaRef|
        #![trigger manifest.built_from(m, artifacts, runtimes, schema)]
        {
            &&& manifest.built_from(m, artifacts, runtimes, schema)
            &&& is_rag_metadata(m)
            &&& artifacts.len() == 1
            &&& artifacts[0].kind@ == "gtpack-json"@
            &&& artifacts[0].uri@ == "./"@ + package_dir_text(RAG_PROVIDER_ID@) + ".gtpack.json"@
            &&& runtimes.len() == 1
            &&& runtimes[0].component_id@ == "rag-mock-runtime"@
            &&& runtimes[0].kind@ == "service"@
            &&& runtimes[0].entrypoint@ == "provider-rag-mock"@
            &&& runtimes[0].artifact_uri@ == oci_reference_text(RAG_PROVIDER_ID@, RAG_PROVIDER_VERSION@)
            &&& schema.format@ == "json-schema"@
            &&& schema.path@ == "schemas/provider-config.schema.json"@
            &&& schema.schema_json@ == RAG_CONFIG_SCHEMA_JSON@
        }
}

/// The pack manifest of the RAG mock.
pub fn pack_manifest() -> (manifest: ProviderPackManifest)
    ensures
        is_rag_pack_manifest(manifest),
{
    let metadata = rag_metadata();
    let mut artifacts: Vec<ArtifactReference> = Vec::new();
    artifacts.push(ArtifactReference { kind: owned("gtpack-json"), uri: provider_artifact_file_uri(RAG_PROVIDER_ID) });
    let mut runtimes: Vec<RuntimeComponentRef> = Vec::new();
    runtimes.push(provider_runtime_component(RAG_PROVIDER_ID, RAG_PROVIDER_VERSION, "rag-mock-runtime", "provider-rag-mock"));
    let schema = ConfigSchemaRef {
        format: owned("json-schema"),
        path: owned("schemas/provider-config.schema.json"),
        schema_json: owned(RAG_CONFIG_SCHEMA_JSON),
    };
    let ghost a = artifacts@;
    let ghost r = runtimes@;
    let ghost s = schema;
    let manifest = ProviderPackManifest::from_metadata(&metadata, artifacts, runtimes, schema);
    assert(manifest.built_from(metadata, a, r, s));
    manifest
}

/// The catalog entry of the RAG mock, made from its manifest.
pub open spec fn is_rag_catalog_entry(entry: ProviderCatalogEntry, manifest: ProviderPackManifest) -> bool {
    &&& entry.provider_id == manifest.provider_id
    &&& entry.provider_version == manifest.provider_version
    &&& entry.provider_kind == manifest.provider_kind
    &&& entry.capabilities@ == manifest.capabilities@
    &&& entry.tags@.map_values(|t: String| t@) == seq!["evidence"@, "mock"@]
    &&& entry.is_mock == manifest.is_mock
    &&& entry.status == manifest.status
    &&& entry.supported_provider_contract_version == manifest.supported_provider_contract_version
    &&& entry.supported_sorla_ir == manifest.supported_sorla_ir
    &&& entry.supported_sorla_ir_range == manifest.supported_sorla_ir_range
    &&& entry.config_schema_path == manifest.config_schema.path
    &&& entry.artifact_uri == (if manifest.artifact_references@.len() > 0 {
        Some(manifest.artifact_references@[0].uri)
    } else {
        None
    })
    &&& entry.oci_reference == manifest.oci_reference
    &&& entry.ontology is None
}

/// The RAG mock's catalog entry is the entry the catalog generates from the
/// RAG pack manifest.
pub proof fn law_rag_catalog_entry_is_generated(entry: ProviderCatalogEntry, manifest: ProviderPackManifest)
    requires
        is_rag_pack_manifest(manifest),
        is_rag_catalog_entry(entry, manifest),
    ensures
        entry_for_manifest(entry, manifest),
{
    reveal_strlit("evidence");
    reveal_strlit("mock");
    let (m, a, r, sc) = choose|m: ProviderMetadata, artifacts: Seq<ArtifactReference>, runtimes: Seq<RuntimeComponentRef>, schema: ConfigSchemaRef|
        #![trigger manifest.built_from(m, artifacts, runtimes, schema)]
        {
            &&& manifest.built_from(m, artifacts, runtimes, schema)
            &&& is_rag_metadata(m)
            &&& artifacts.len() == 1
            &&& artifacts[0].kind@ == "gtpack-json"@
            &&& artifacts[0].uri@ == "./"@ + package_dir_text(RAG_PROVIDER_ID@) + ".gtpack.json"@
            &&& runtimes.len() == 1
            &&& runtimes[0].component_id@ == "rag-mock-runtime"@
            &&& runtimes[0].kind@ == "service"@
            &&& runtimes[0].entrypoint@ == "provider-rag-mock"@
            &&& runtimes[0].artifact_uri@ == oci_reference_text(RAG_PROVIDER_ID@, RAG_PROVIDER_VERSION@)
            &&& schema.format@ == "json-schema"@
            &&& schema.path@ == "schemas/provider-config.schema.json"@
            &&& schema.schema_json@ == RAG_CONFIG_SCHEMA_JSON@
        };
    assert(manifest.provider_kind@ == "evidence"@);
    assert(manifest.is_mock);
    assert(marker_tag(true) == "mock"@);
    assert(("evidence"@)[0] == 'e' && ("mock"@)[0] == 'm');
    assert(crate::text::chars_lt("evidence"@, "mock"@));
    assert("evidence"@ != "mock"@);
    assert(tags_text(manifest.provider_kind@, manifest.is_mock) == seq!["evidence"@, "mock"@]);
    assert(manifest.ontology_capabilities is None);
}

/// The catalog entry of the RAG mock.
pub fn catalog_entry() -> (entry: ProviderCatalogEntry)
    ensures
        exists|manifest: ProviderPackManifest|
            #[trigger] is_rag_pack_manifest(manifest) && is_rag_catalog_entry(entry, manifest),
{
    let manifest = pack_manifest();
    let ghost mv = manifest;
    let artifact_uri = if manifest.artifact_references.len() > 0 {
        Some(manifest.artifact_references[0].uri.clone())
    } else {
        None
    };
    let mut tags: Vec<String> = Vec::new();
    tags.push(owned("evidence"));
    tags.push(owned("mock"));
    let capabilities = manifest.capabilities.clone();
    let entry = ProviderCatalogEntry {
        provider_id: manifest.provider_id,
        provider_version: manifest.provider_version,
        provider_kind: manifest.provider_kind,
        capabilities,
        tags,
        is_mock: manifest.is_mock,
        status: manifest.status,
        supported_provider_contract_version: manifest.supported_provider_contract_version,
        supported_sorla_ir: manifest.supported_sorla_ir,
        supported_sorla_ir_range: manifest.supported_sorla_ir_range,
        config_schema_path: manifest.config_schema.path,
        artifact_uri,
        oci_reference: manifest.oci_reference,
        ontology: None,
    };
    assert(entry.tags@.map_values(|t: String| t@) =~= seq!["evidence"@, "mock"@]);
    assert(entry.capabilities@ =~= mv.capabilities@);
    assert(is_rag_catalog_entry(entry, mv));
    entry
}

} // verus!
