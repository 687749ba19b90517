//! Layer 1, the raw cache: findings from a Solodit search stored per query
//! fingerprint, with a time-to-live after which a search may be ingested
//! again.
use vstd::prelude::*;

use crate::clock::current_time;
use crate::fingerprint::{fingerprint, fingerprint_of};
use crate::store::{clock_failed, entries_of_envelopes, parsed_envelopes, KbError, Store, StoreModel};
use crate::text::{concat_texts, same_text, to_uppercase, uppercase};
use crate::types::{
    copy_opt_text, copy_texts, entries, opt_text, texts, CurationStatus, EntryModel, EntrySource,
    EnvelopeModel, Impact, KbEntry, RawCacheEnvelope, RawQueryParams, Timestamp,
};

verus! {

/// A finding as received from the Solodit search.
pub struct IngestFinding {
    pub slug: String,
    pub title: String,
    pub impact: String,
    /// Quality in millionths of a point.
    pub quality_score: i64,
    pub firm: String,
    pub protocol: String,
    pub tags: Vec<String>,
    pub category: String,
    pub summary: Option<String>,
    pub content: Option<String>,
}

/// The value of an [`IngestFinding`].
pub struct FindingModel {
    pub slug: Seq<char>,
    pub title: Seq<char>,
    pub impact: Seq<char>,
    pub quality_score: i64,
    pub firm: Seq<char>,
    pub protocol: Seq<char>,
    pub tags: Seq<Seq<char>>,
    pub category: Seq<char>,
    pub summary: Option<Seq<char>>,
    pub content: Option<Seq<char>>,
}

impl View for IngestFinding {
    type V = FindingModel;

    open spec fn view(&self) -> FindingModel {
        FindingModel {
            slug: self.slug@,
            title: self.title@,
            impact: self.impact@,
            quality_score: self.quality_score,
            firm: self.firm@,
            protocol: self.protocol@,
            tags: texts(self.tags),
            category: self.category@,
            summary: opt_text(self.summary),
            content: opt_text(self.content),
        }
    }
}

impl Clone for IngestFinding {
    fn clone(&self) -> (r: Self)
        ensures
            r@ == self@,
    {
        IngestFinding {
            slug: self.slug.clone(),
            title: self.title.clone(),
            impact: self.impact.clone(),
            quality_score: self.quality_score,
            firm: self.firm.clone(),
            protocol: self.protocol.clone(),
            tags: copy_texts(&self.tags),
            category: self.category.clone(),
            summary: copy_opt_text(&self.summary),
            content: copy_opt_text(&self.content),
        }
    }
}

/// The impact that a finding's impact text stands for: HIGH or MEDIUM in
/// any case; any other impact is not stored.
pub open spec fn impact_of(text: Seq<char>) -> Option<Impact> {
    if uppercase(text) == "HIGH"@ {
        Some(Impact::High)
    } else if uppercase(text) == "MEDIUM"@ {
        Some(Impact::Medium)
    } else {
        None
    }
}

/// The entry made of a finding with a storable impact, ingested at `now`:
/// id `solodit:{slug}`, unreviewed, no scores yet.
pub open spec fn entry_of_finding(f: FindingModel, impact: Impact, now: Timestamp) -> EntryModel {
    EntryModel {
        id: "solodit:"@ + f.slug,
        slug: f.slug,
        title: f.title,
        impact,
        quality_score: f.quality_score,
        firm: f.firm,
        protocol: f.protocol,
        tags: f.tags,
        category: f.category,
        summary: f.summary,
        content: f.content,
        design_context: None,
        code_context: None,
        source: EntrySource::Solodit,
        curation: CurationStatus::Unreviewed,
        relevance_score: 0,
        confidence: 0,
        ingested_at: now,
        last_curated_at: None,
        auditor_notes: None,
        confirmed_by: seq![],
    }
}

/// The entry made of a finding, or none when its impact is not HIGH or
/// MEDIUM (severity guardrail).
pub open spec fn converted(f: FindingModel, now: Timestamp) -> Option<EntryModel> {
    match impact_of(f.impact) {
        Some(impact) => Some(entry_of_finding(f, impact, now)),
        None => None,
    }
}

/// The entries made of the findings that have a storable impact, in order.
pub open spec fn converted_all(fs: Seq<FindingModel>, now: Timestamp) -> Seq<EntryModel>
    decreases fs.len(),
{
    if fs.len() == 0 {
        seq![]
    } else {
        converted_all(fs.drop_last(), now) + match converted(fs.last(), now) {
            Some(e) => seq![e],
            None => seq![],
        }
    }
}

/// The values of a list of findings.
pub open spec fn findings(v: Vec<IngestFinding>) -> Seq<FindingModel> {
    v@.map_values(|f: IngestFinding| f@)
}

/// An entry carries a finding field for field: id `solodit:{slug}`, the
/// slug, title, quality, firm, protocol, tags, category, summary and
/// content of the finding; the impact its impact text names; no context,
/// source Solodit, unreviewed, no scores, ingested at `now`, never curated,
/// no notes and no confirmations.
pub open spec fn carries_finding(e: EntryModel, f: FindingModel, now: Timestamp) -> bool {
    &&& e.id == "solodit:"@ + f.slug
    &&& e.slug == f.slug
    &&& e.title == f.title
    &&& e.quality_score == f.quality_score
    &&& e.firm == f.firm
    &&& e.protocol == f.protocol
    &&& e.tags == f.tags
    &&& e.category == f.category
    &&& e.summary == f.summary
    &&& e.content == f.content
    &&& (e.impact == Impact::High <==> uppercase(f.impact) == "HIGH"@)
    &&& (e.impact == Impact::Medium <==> uppercase(f.impact) == "MEDIUM"@)
    &&& e.design_context is None
    &&& e.code_context is None
    &&& e.source == EntrySource::Solodit
    &&& e.curation == CurationStatus::Unreviewed
    &&& e.relevance_score == 0
    &&& e.confidence == 0
    &&& e.ingested_at == now
    &&& e.last_curated_at is None
    &&& e.auditor_notes is None
    &&& e.confirmed_by.len() == 0
}

/// Converts a finding into an entry, ingested at `now`. Returns `None` when
/// the impact is not HIGH or MEDIUM (severity guardrail).
pub fn to_kb_entry(f: IngestFinding, now: Timestamp) -> (r: Option<KbEntry>)
    ensures
        match r {
            Some(e) => converted(f@, now) == Some(e@),
            None => converted(f@, now) is None,
        },
        r matches Some(e) ==> carries_finding(e@, f@, now),
        r is None <==> (uppercase(f@.impact) != "HIGH"@ && uppercase(f@.impact) != "MEDIUM"@),
{
    proof {
        reveal_strlit("HIGH");
        reveal_strlit("MEDIUM");
        assert("HIGH"@.len() != "MEDIUM"@.len());
    }
    let upper = to_uppercase(f.impact.as_str());
    let impact = if same_text(upper.as_str(), "HIGH") {
        Impact::High
    } else if same_text(upper.as_str(), "MEDIUM") {
        Impact::Medium
    } else {
        return None;
    };
    let id = concat_texts("solodit:", f.slug.as_str());
    let e = KbEntry {
        id,
        slug: f.slug,
        title: f.title,
        impact,
        quality_score: f.quality_score,
        firm: f.firm,
        protocol: f.protocol,
        tags: f.tags,
        category: f.category,
        summary: f.summary,
        content: f.content,
        design_context: None,
        code_context: None,
        source: EntrySource::Solodit,
        curation: CurationStatus::Unreviewed,
        relevance_score: 0,
        confidence: 0,
        ingested_at: now,
        last_curated_at: None,
        auditor_notes: None,
        confirmed_by: Vec::new(),
    };
    assert(e@.confirmed_by =~= seq![]);
    Some(e)
}

/// Converts the findings that have a storable impact, in order.
pub fn to_kb_entries(fs: Vec<IngestFinding>, now: Timestamp) -> (r: Vec<KbEntry>)
    ensures
        entries(r) == converted_all(findings(fs), now),
{
    let ghost all = findings(fs);
    let mut r: Vec<KbEntry> = Vec::new();
    let mut i: usize = 0;
    while i < fs.len()
        invariant
            i <= fs.len(),
            all == findings(fs),
            entries(r) == converted_all(all.take(i as int), now),
        decreases fs.len() - i,
    {
        proof {
            assert(all.take(i + 1).drop_last() =~= all.take(i as int));
        }
        let ghost before = entries(r);
        match to_kb_entry(fs[i].clone(), now) {
            Some(e) => {
                r.push(e);
                assert(entries(r) =~= before + seq![e@]);
            },
            None => {},
        }
        assert(entries(r) =~= converted_all(all.take(i + 1), now));
        i = i + 1;
    }
    assert(all.take(fs@.len() as int) =~= all);
    r
}

// ---------------------------------------------------------------------------
// Specification of the raw cache
// ---------------------------------------------------------------------------
/// Whether the query with this fingerprint is cached and fresh at `now`:
/// `None` when its file is malformed.
pub open spec fn cached_at(m: StoreModel, fp: Seq<char>, now: Timestamp) -> Option<bool> {
    match m.raw_file(fp) {
        None => Some(false),
        Some(f) => match f.envelope {
            None => None,
            Some(e) => Some(!e.expired_at(now)),
        },
    }
}

/// The outcome of an ingestion at `now`.
pub enum IngestOutcome {
    /// The file of the fingerprint is malformed: nothing changes.
    Failed,
    /// A fresh envelope exists: nothing is ingested.
    Fresh,
    /// This envelope is written.
    Written(EnvelopeModel),
}

/// What ingesting findings for a query with time-to-live `ttl_secs` at `now`
/// does: keep a fresh envelope, or write a new one with the findings that
/// have a storable impact.
pub open spec fn ingest_outcome(
    m: StoreModel,
    params: crate::types::ParamsModel,
    fs: Seq<FindingModel>,
    ttl_secs: u64,
    now: Timestamp,
) -> IngestOutcome {
    let fp = fingerprint_of(params);
    match cached_at(m, fp, now) {
        None => IngestOutcome::Failed,
        Some(true) => IngestOutcome::Fresh,
        Some(false) => IngestOutcome::Written(
            EnvelopeModel {
                fingerprint: fp,
                query_params: params,
                fetched_at: now,
                ttl_secs,
                entries: converted_all(fs, now),
            },
        ),
    }
}

/// All entries of a list of envelopes, envelope after envelope.
pub open spec fn flattened(envs: Seq<EnvelopeModel>) -> Seq<EntryModel>
    decreases envs.len(),
{
    if envs.len() == 0 {
        seq![]
    } else {
        flattened(envs.drop_last()) + envs.last().entries
    }
}

/// The envelopes not expired at `now`.
pub open spec fn fresh_only(envs: Seq<EnvelopeModel>, now: Timestamp) -> Seq<EnvelopeModel> {
    envs.filter(|e: EnvelopeModel| !e.expired_at(now))
}

/// The store after deleting, in order, the files named by the fingerprints
/// of the envelopes expired at `now`.
pub open spec fn after_eviction(m: StoreModel, envs: Seq<EnvelopeModel>, now: Timestamp) -> StoreModel
    decreases envs.len(),
{
    if envs.len() == 0 {
        m
    } else {
        let before = after_eviction(m, envs.drop_last(), now);
        if envs.last().expired_at(now) {
            before.without_raw(envs.last().fingerprint)
        } else {
            before
        }
    }
}

/// The number of envelopes expired at `now`.
pub open spec fn expired_count(envs: Seq<EnvelopeModel>, now: Timestamp) -> nat {
    envs.filter(|e: EnvelopeModel| e.expired_at(now)).len()
}

// ---------------------------------------------------------------------------
// The raw cache
// ---------------------------------------------------------------------------
/// Layer 1: ingestion of search results, freshness of cached queries, and
/// forced refresh.
pub struct RawCache<'a> {
    pub store: &'a mut Store,
}

impl<'a> RawCache<'a> {
    /// The contents of the store that this cache works on.
    pub open spec fn stored(&self) -> StoreModel {
        (*self.store)@
    }

    pub fn new(store: &'a mut Store) -> (r: Self)
        ensures
            *r.store == *old(store),
            *final(r.store) == *final(store),
    {
        RawCache { store }
    }

    /// Ingests findings from a search, with the time-to-live that the store
    /// gives new envelopes.
    pub fn ingest(&mut self, params: &RawQueryParams, findings: Vec<IngestFinding>) -> (r: Result<
        usize,
        KbError,
    >)
        ensures
            *final(final(self).store) == *final(old(self).store),
            clock_failed(r) ==> final(self).store@ == old(self).store@,
            !clock_failed(r) ==> exists|now: Timestamp| #[trigger]
                ingested(
                    old(self).store@,
                    final(self).store@,
                    params@,
                    crate::raw::findings(findings),
                    old(self).store@.raw_ttl_secs,
                    now,
                    r,
                ),
    {
        let ttl = self.store.raw_ttl_secs();
        self.ingest_with_ttl(params, findings, ttl)
    }

    /// Ingests findings from a search with the given time-to-live, at the
    /// time of the system clock.
    pub fn ingest_with_ttl(
        &mut self,
        params: &RawQueryParams,
        findings: Vec<IngestFinding>,
        ttl_secs: u64,
    ) -> (r: Result<usize, KbError>)
        ensures
            *final(final(self).store) == *final(old(self).store),
            clock_failed(r) ==> final(self).store@ == old(self).store@,
            !clock_failed(r) ==> exists|now: Timestamp| #[trigger]
                ingested(
                    old(self).store@,
                    final(self).store@,
                    params@,
                    crate::raw::findings(findings),
                    ttl_secs,
                    now,
                    r,
                ),
    {
        let now = match current_time() {
            Some(t) => t,
            None => return Err(KbError::ClockUnavailable),
        };
        self.ingest_at(params, findings, ttl_secs, now)
    }

    /// Ingests findings from a search at `now`. When the query's envelope is
    /// still fresh nothing is ingested and `Ok(0)` is returned; otherwise the
    /// findings with a HIGH or MEDIUM impact are written in a new envelope
    /// (fetched at `now`) and their number is returned.
    pub fn ingest_at(
        &mut self,
        params: &RawQueryParams,
        findings: Vec<IngestFinding>,
        ttl_secs: u64,
        now: Timestamp,
    ) -> (r: Result<usize, KbError>)
        ensures
            *final(final(self).store) == *final(old(self).store),
            ingested(
                old(self).store@,
                final(self).store@,
                params@,
                crate::raw::findings(findings),
                ttl_secs,
                now,
                r,
            ),
    {
        let fp = fingerprint(params);
        let existing = self.store.read_raw(fp.as_str())?;
        match &existing {
            Some(env) => {
                if !env.is_expired_at(now) {
                    return Ok(0);
                }
            },
            None => {},
        }
        let es = to_kb_entries(findings, now);
        let count = es.len();
        let envelope = RawCacheEnvelope {
            fingerprint: fp,
            query_params: params.clone(),
            fetched_at: now,
            ttl_secs,
            entries: es,
        };
        self.store.write_raw(&envelope);
        Ok(count)
    }

    /// Whether the query is cached and fresh at `now`; an error when its
    /// file is malformed.
    pub fn is_cached_at(&self, params: &RawQueryParams, now: Timestamp) -> (r: Result<bool, KbError>)
        ensures
            match cached_at(self.stored(), fingerprint_of(params@), now) {
                None => r matches Err(KbError::Malformed(_)),
                Some(b) => r == Ok::<bool, KbError>(b),
            },
    {
        is_fresh_in(self.store, params, now)
    }

    /// Whether the query is cached and fresh now (by the system clock).
    pub fn is_cached(&self, params: &RawQueryParams) -> (r: Result<bool, KbError>)
        ensures
            !clock_failed(r) ==> exists|now: Timestamp|
                match #[trigger] cached_at(self.stored(), fingerprint_of(params@), now) {
                    None => r matches Err(KbError::Malformed(_)),
                    Some(b) => r == Ok::<bool, KbError>(b),
                },
    {
        let now = match current_time() {
            Some(t) => t,
            None => return Err(KbError::ClockUnavailable),
        };
        self.is_cached_at(params, now)
    }

    /// Forced refresh: deletes the cached file of the query.
    pub fn invalidate(&mut self, params: &RawQueryParams)
        ensures
            *final(final(self).store) == *final(old(self).store),
            final(self).store@ == old(self).store@.without_raw(fingerprint_of(params@)),
    {
        let fp = fingerprint(params);
        self.store.delete_raw(fp.as_str());
    }

    /// All entries of all raw cache envelopes, expired or not.
    pub fn all_entries(&self) -> (r: Vec<KbEntry>)
        ensures
            entries(r) == flattened(parsed_envelopes(self.stored().raw)),
    {
        let envs = self.store.list_raw();
        concat_entries(&envs)
    }

    /// The entries of the envelopes not expired at `now`.
    pub fn fresh_entries_at(&self, now: Timestamp) -> (r: Vec<KbEntry>)
        ensures
            entries(r) == flattened(fresh_only(parsed_envelopes(self.stored().raw), now)),
    {
        let envs = self.store.list_raw();
        let ghost all = entries_of_envelopes(envs);
        let mut fresh: Vec<RawCacheEnvelope> = Vec::new();
        let mut i: usize = 0;
        while i < envs.len()
            invariant
                i <= envs.len(),
                all == entries_of_envelopes(envs),
                entries_of_envelopes(fresh) == fresh_only(all.take(i as int), now),
            decreases envs.len() - i,
        {
            proof {
                assert(all.take(i + 1).drop_last() =~= all.take(i as int));
                lemma_filter_push(all.take(i as int), all[i as int], |e: EnvelopeModel| !e.expired_at(now));
                assert(all.take(i + 1) =~= all.take(i as int).push(all[i as int]));
            }
            let ghost before = entries_of_envelopes(fresh);
            if !envs[i].is_expired_at(now) {
                fresh.push(envs[i].clone());
                assert(entries_of_envelopes(fresh) =~= before.push(envs@[i as int]@));
            }
            i = i + 1;
        }
        assert(all.take(envs@.len() as int) =~= all);
        concat_entries(&fresh)
    }

    /// The entries of the envelopes that are fresh now (by the system clock).
    pub fn fresh_entries(&self) -> (r: Result<Vec<KbEntry>, KbError>)
        ensures
            r is Err ==> clock_failed(r),
            r matches Ok(v) ==> exists|now: Timestamp|
                entries(v) == flattened(#[trigger] fresh_only(parsed_envelopes(self.stored().raw), now)),
    {
        let now = match current_time() {
            Some(t) => t,
            None => return Err(KbError::ClockUnavailable),
        };
        Ok(self.fresh_entries_at(now))
    }

    /// Deletes the files of the envelopes expired at `now`; returns how many.
    pub fn evict_expired_at(&mut self, now: Timestamp) -> (r: usize)
        ensures
            *final(final(self).store) == *final(old(self).store),
            final(self).store@ == after_eviction(
                old(self).store@,
                parsed_envelopes(old(self).store@.raw),
                now,
            ),
            r == expired_count(parsed_envelopes(old(self).store@.raw), now),
    {
        let envs = self.store.list_raw();
        let ghost all = entries_of_envelopes(envs);
        let ghost start = self.stored();
        let mut evicted: usize = 0;
        let mut i: usize = 0;
        while i < envs.len()
            invariant
                i <= envs.len(),
                all == entries_of_envelopes(envs),
                *final(self.store) == *final(old(self).store),
                self.stored() == after_eviction(start, all.take(i as int), now),
                evicted == expired_count(all.take(i as int), now),
                evicted <= i,
            decreases envs.len() - i,
        {
            proof {
                assert(all.take(i + 1).drop_last() =~= all.take(i as int));
                assert(all.take(i + 1) =~= all.take(i as int).push(all[i as int]));
                lemma_filter_push(all.take(i as int), all[i as int], |e: EnvelopeModel| e.expired_at(now));
            }
            if envs[i].is_expired_at(now) {
                self.store.delete_raw(envs[i].fingerprint.as_str());
                evicted = evicted + 1;
            }
            i = i + 1;
        }
        assert(all.take(envs@.len() as int) =~= all);
        evicted
    }

    /// Deletes the files of the envelopes expired now (by the system clock);
    /// returns how many.
    pub fn evict_expired(&mut self) -> (r: Result<usize, KbError>)
        ensures
            *final(final(self).store) == *final(old(self).store),
            r is Err ==> clock_failed(r) && final(self).store@ == old(self).store@,
            r matches Ok(n) ==> exists|now: Timestamp|
                final(self).store@ == #[trigger] after_eviction(
                    old(self).store@,
                    parsed_envelopes(old(self).store@.raw),
                    now,
                ) && n == expired_count(parsed_envelopes(old(self).store@.raw), now),
    {
        let now = match current_time() {
            Some(t) => t,
            None => return Err(KbError::ClockUnavailable),
        };
        Ok(self.evict_expired_at(now))
    }
}

/// Whether the query is cached in the store and fresh at `now`; an error
/// when its file is malformed.
pub fn is_fresh_in(store: &Store, params: &RawQueryParams, now: Timestamp) -> (r: Result<bool, KbError>)
    ensures
        match cached_at(store@, fingerprint_of(params@), now) {
            None => r matches Err(KbError::Malformed(_)),
            Some(b) => r == Ok::<bool, KbError>(b),
        },
{
    let fp = fingerprint(params);
    match store.read_raw(fp.as_str())? {
        Some(env) => Ok(!env.is_expired_at(now)),
        None => Ok(false),
    }
}

/// `after` and `r` are the store and the result of ingesting `fs` for
/// `params` with time-to-live `ttl_secs` at `now`, starting from `before`.
pub open spec fn ingested(
    before: StoreModel,
    after: StoreModel,
    params: crate::types::ParamsModel,
    fs: Seq<FindingModel>,
    ttl_secs: u64,
    now: Timestamp,
    r: Result<usize, KbError>,
) -> bool {
    match ingest_outcome(before, params, fs, ttl_secs, now) {
        IngestOutcome::Failed => r matches Err(KbError::Malformed(_)) && after == before,
        IngestOutcome::Fresh => r == Ok::<usize, KbError>(0) && after == before,
        IngestOutcome::Written(e) => r == Ok::<usize, KbError>(e.entries.len() as usize) && after
            == before.with_raw(e.fingerprint, Some(e)),
    }
}

/// Filtering a list with one more element.
pub proof fn lemma_filter_push<A>(s: Seq<A>, x: A, p: spec_fn(A) -> bool)
    ensures
        s.push(x).filter(p) == if p(x) {
            s.filter(p).push(x)
        } else {
            s.filter(p)
        },
{
    assert(s.push(x).drop_last() =~= s);
    reveal_with_fuel(Seq::filter, 1);
}

/// All entries of a list of envelopes, envelope after envelope.
pub fn concat_entries(envs: &Vec<RawCacheEnvelope>) -> (r: Vec<KbEntry>)
    ensures
        entries(r) == flattened(entries_of_envelopes(*envs)),
{
    let ghost all = entries_of_envelopes(*envs);
    let mut r: Vec<KbEntry> = Vec::new();
    let mut i: usize = 0;
    while i < envs.len()
        invariant
            i <= envs.len(),
            all == entries_of_envelopes(*envs),
            entries(r) == flattened(all.take(i as int)),
        decreases envs.len() - i,
    {
        proof {
            assert(all.take(i + 1).drop_last() =~= all.take(i as int));
        }
        let es = &envs[i].entries;
        let mut j: usize = 0;
        let ghost before = entries(r);
        while j < es.len()
            invariant
                j <= es.len(),
                entries(r) == before + entries(*es).take(j as int),
            decreases es.len() - j,
        {
            let ghost b = entries(r);
            r.push(es[j].clone());
            assert(entries(r) =~= b.push(es@[j as int]@));
            assert(entries(*es).take(j + 1) =~= entries(*es).take(j as int).push(es@[j as int]@));
            j = j + 1;
        }
        assert(entries(*es).take(es@.len() as int) =~= entries(*es));
        i = i + 1;
    }
    assert(all.take(envs@.len() as int) =~= all);
    r
}

} // verus!
