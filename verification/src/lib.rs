//! A local knowledge base of curated vulnerability findings, shared by the
//! design-review and audit-sandbox pipelines: a raw cache of search results,
//! a curated and scored index, and filtered, ranked queries for agents.
pub mod clock;
pub mod commands;
pub mod curate;
pub mod fingerprint;
pub mod laws;
pub mod order;
pub mod query;
pub mod raw;
pub mod scoring;
pub mod store;
pub mod text;
pub mod types;

use vstd::prelude::*;
use vstd::string::StringExecFns;

use crate::curate::{curated, feedback_done, feedback_items, set_done, Curator};
use crate::query::{answer, curated_all, QueryEngine};
use crate::raw::{
    after_eviction, cached_at, expired_count, findings, flattened, ingested, is_fresh_in,
    IngestFinding, RawCache,
};
use crate::store::{clock_failed, parsed_envelopes, seed_paths_in, KbError, SeedDir, Store, StoreModel};
use crate::text::{concat_texts, has_prefix, starts_with};
use crate::types::{
    copy_entries, entries, opt_text, texts, CurationContext, CurationStats, CurationStatus,
    EntryModel, EntrySource, ExportStats, FeedbackItem, Impact, KbEntry, KbQuery, KbQueryResult,
    RawQueryParams, SeedFile, SeedLevel, SeedModel, Timestamp,
};

verus! {

/// A seed entry as it joins a curation pass: entries from seeds get the id
/// `seed:{slug}` unless their id already starts with `seed:`.
pub open spec fn seed_entry(e: EntryModel) -> EntryModel {
    match e.source {
        EntrySource::Seed => if has_prefix(e.id, "seed:"@) {
            e
        } else {
            EntryModel { id: "seed:"@ + e.slug, ..e }
        },
        _ => e,
    }
}

/// All entries of the seed files, with seed ids fixed, file after file.
pub open spec fn seed_entries(seeds: Seq<SeedModel>) -> Seq<EntryModel>
    decreases seeds.len(),
{
    if seeds.len() == 0 {
        seq![]
    } else {
        seed_entries(seeds.drop_last()) + seeds.last().entries.map_values(
            |e: EntryModel| seed_entry(e),
        )
    }
}

/// The entries that a curation pass works on: those of the raw cache (expired
/// or not), then those of the seed files.
pub open spec fn curation_input(m: StoreModel) -> Seq<EntryModel> {
    flattened(parsed_envelopes(m.raw)) + seed_entries(m.all_seeds())
}

/// The curated entries that an export keeps: useful or critical ones.
pub open spec fn exportable(es: Seq<EntryModel>) -> Seq<EntryModel> {
    es.filter(|e: EntryModel| e.curation.is_positive())
}

/// Appends the entries of one seed file, with seed ids fixed.
fn push_seed_entries(out: &mut Vec<KbEntry>, es: &Vec<KbEntry>)
    ensures
        entries(*final(out)) == entries(*old(out)) + entries(*es).map_values(
            |e: EntryModel| seed_entry(e),
        ),
{
    let ghost before = entries(*out);
    let mut j: usize = 0;
    while j < es.len()
        invariant
            j <= es.len(),
            entries(*out) == before + entries(*es).take(j as int).map_values(
                |e: EntryModel| seed_entry(e),
            ),
        decreases es.len() - j,
    {
        let mut e = es[j].clone();
        match e.source {
            EntrySource::Seed => {
                if !starts_with(e.id.as_str(), "seed:") {
                    e.id = concat_texts("seed:", e.slug.as_str());
                }
            },
            _ => {},
        }
        let ghost b = entries(*out);
        out.push(e);
        proof {
            assert(entries(*out) =~= b.push(seed_entry(es@[j as int]@)));
            assert(entries(*es).take(j + 1).map_values(|e: EntryModel| seed_entry(e)) =~= entries(
                *es,
            ).take(j as int).map_values(|e: EntryModel| seed_entry(e)).push(
                seed_entry(es@[j as int]@),
            ));
        }
        j = j + 1;
    }
    assert(entries(*es).take(es@.len() as int) =~= entries(*es));
}

/// The answer to "is this query cached and fresh at `now`": an error when
/// its file is malformed.
pub open spec fn cache_answer(m: StoreModel, fp: Seq<char>, now: Timestamp, r: Result<bool, KbError>) -> bool {
    match cached_at(m, fp, now) {
        None => r matches Err(KbError::Malformed(_)),
        Some(b) => r == Ok::<bool, KbError>(b),
    }
}

/// The knowledge base: raw cache, curated index, and agent consumption.
pub struct KnowledgeBase {
    store: Store,
}

impl View for KnowledgeBase {
    type V = StoreModel;

    closed spec fn view(&self) -> StoreModel {
        self.store@
    }
}

impl KnowledgeBase {
    /// A knowledge base over an empty directory at `base_dir`.
    pub fn new(base_dir: String) -> (r: Self)
        ensures
            r@.base_dir == base_dir@,
            r@.raw_ttl_secs == crate::store::DEFAULT_TTL_SECS,
            r@.raw.len() == 0,
            r@.seeds.len() == 0,
            r@.high is Missing,
            r@.medium is Missing,
    {
        KnowledgeBase { store: Store::new(base_dir) }
    }

    /// A knowledge base over the files of a store.
    pub fn from_store(store: Store) -> (r: Self)
        ensures
            r@ == store@,
    {
        KnowledgeBase { store }
    }

    /// The files of this knowledge base.
    pub fn store(&self) -> (r: &Store)
        ensures
            r@ == self@,
    {
        &self.store
    }

    // -- Layer 1: raw cache --
    /// Ingests findings of a search into the raw cache (see
    /// [`RawCache::ingest`]).
    pub fn ingest(&mut self, params: &RawQueryParams, findings: Vec<IngestFinding>) -> (r: Result<
        usize,
        KbError,
    >)
        ensures
            clock_failed(r) ==> final(self)@ == old(self)@,
            !clock_failed(r) ==> exists|now: Timestamp| #[trigger]
                ingested(
                    old(self)@,
                    final(self)@,
                    params@,
                    crate::raw::findings(findings),
                    old(self)@.raw_ttl_secs,
                    now,
                    r,
                ),
    {
        let ttl = self.store.raw_ttl_secs();
        let now = match crate::clock::current_time() {
            Some(t) => t,
            None => return Err(KbError::ClockUnavailable),
        };
        self.ingest_at(params, findings, ttl, now)
    }

    /// Ingests findings at `now` with a given time-to-live (see
    /// [`RawCache::ingest_at`]).
    pub fn ingest_at(
        &mut self,
        params: &RawQueryParams,
        findings: Vec<IngestFinding>,
        ttl_secs: u64,
        now: Timestamp,
    ) -> (r: Result<usize, KbError>)
        ensures
            ingested(old(self)@, final(self)@, params@, crate::raw::findings(findings), ttl_secs, now, r),
    {
        let mut raw = RawCache::new(&mut self.store);
        raw.ingest_at(params, findings, ttl_secs, now)
    }

    /// Whether the query is cached and fresh now; an error when its file is
    /// malformed.
    pub fn is_cached(&self, params: &RawQueryParams) -> (r: Result<bool, KbError>)
        ensures
            !clock_failed(r) ==> exists|now: Timestamp| #[trigger]
                cache_answer(self@, crate::fingerprint::fingerprint_of(params@), now, r),
    {
        let now = match crate::clock::current_time() {
            Some(t) => t,
            None => return Err(KbError::ClockUnavailable),
        };
        self.is_cached_at(params, now)
    }

    /// Whether the query is cached and fresh at `now`.
    pub fn is_cached_at(&self, params: &RawQueryParams, now: Timestamp) -> (r: Result<bool, KbError>)
        ensures
            cache_answer(self@, crate::fingerprint::fingerprint_of(params@), now, r),
    {
        is_fresh_in(&self.store, params, now)
    }

    /// Forced refresh: deletes the cached file of the query.
    pub fn invalidate(&mut self, params: &RawQueryParams)
        ensures
            final(self)@ == old(self)@.without_raw(crate::fingerprint::fingerprint_of(params@)),
    {
        let mut raw = RawCache::new(&mut self.store);
        raw.invalidate(params)
    }

    /// Deletes the files of expired envelopes; returns how many.
    pub fn evict_expired(&mut self) -> (r: Result<usize, KbError>)
        ensures
            r is Err ==> clock_failed(r) && final(self)@ == old(self)@,
            r matches Ok(n) ==> exists|now: Timestamp|
                final(self)@ == #[trigger] after_eviction(old(self)@, parsed_envelopes(old(self)@.raw), now)
                    && n == expired_count(parsed_envelopes(old(self)@.raw), now),
    {
        let now = match crate::clock::current_time() {
            Some(t) => t,
            None => return Err(KbError::ClockUnavailable),
        };
        Ok(self.evict_expired_at(now))
    }

    /// Deletes the files of the envelopes expired at `now`; returns how many.
    pub fn evict_expired_at(&mut self, now: Timestamp) -> (r: usize)
        ensures
            final(self)@ == after_eviction(old(self)@, parsed_envelopes(old(self)@.raw), now),
            r == expired_count(parsed_envelopes(old(self)@.raw), now),
    {
        let mut raw = RawCache::new(&mut self.store);
        raw.evict_expired_at(now)
    }

    // -- Layer 2: curation --
    /// The entries of all seed files, with seed ids fixed.
    fn collect_seed_entries(&self) -> (r: Vec<KbEntry>)
        ensures
            entries(r) == seed_entries(self@.all_seeds()),
    {
        let seeds = self.store.read_seeds();
        let ghost ss = crate::store::seed_models(seeds);
        let mut out: Vec<KbEntry> = Vec::new();
        let mut i: usize = 0;
        while i < seeds.len()
            invariant
                i <= seeds.len(),
                ss == crate::store::seed_models(seeds),
                ss == self@.all_seeds(),
                entries(out) == seed_entries(ss.take(i as int)),
            decreases seeds.len() - i,
        {
            proof {
                assert(ss.take(i + 1).drop_last() =~= ss.take(i as int));
                assert(ss.take(i + 1).last() == seeds@[i as int]@);
            }
            push_seed_entries(&mut out, &seeds[i].entries);
            i = i + 1;
        }
        assert(ss.take(seeds@.len() as int) =~= ss);
        out
    }

    /// Runs a curation pass over all raw cache and seed entries (see
    /// [`Curator::curate`]).
    pub fn curate(&mut self, context: &CurationContext) -> (r: Result<CurationStats, KbError>)
        ensures
            clock_failed(r) ==> final(self)@ == old(self)@,
            !clock_failed(r) ==> exists|now: Timestamp| #[trigger]
                curated(old(self)@, final(self)@, curation_input(old(self)@), context@, now, r),
    {
        let raw = RawCache::new(&mut self.store);
        let mut all = raw.all_entries();
        proof {
            assert(has_resolved(raw));
        }
        let seeds = self.collect_seed_entries();
        let ghost raw_part = entries(all);
        let mut j: usize = 0;
        while j < seeds.len()
            invariant
                j <= seeds.len(),
                entries(all) =~= raw_part + entries(seeds).take(j as int),
            decreases seeds.len() - j,
        {
            let ghost b = entries(all);
            all.push(seeds[j].clone());
            proof {
                assert(entries(all) =~= b.push(entries(seeds)[j as int]));
                assert(entries(seeds).take(j + 1) =~= entries(seeds).take(j as int).push(
                    entries(seeds)[j as int],
                ));
            }
            j = j + 1;
        }
        assert(entries(seeds).take(seeds@.len() as int) =~= entries(seeds));
        let now = match crate::clock::current_time() {
            Some(t) => t,
            None => return Err(KbError::ClockUnavailable),
        };
        let mut curator = Curator::new(&mut self.store);
        let r = curator.curate_at(all, context, now);
        proof {
            assert(has_resolved(curator));
            assert(curated(old(self)@, self@, curation_input(old(self)@), context@, now, r));
        }
        r
    }

    /// Sets the curation status of an entry (see [`Curator::set_curation`]).
    pub fn set_curation(&mut self, entry_id: &str, status: CurationStatus, notes: Option<String>) -> (r:
        Result<bool, KbError>)
        ensures
            clock_failed(r) ==> final(self)@ == old(self)@,
            !clock_failed(r) ==> exists|now: Timestamp| #[trigger]
                set_done(old(self)@, final(self)@, entry_id@, status, opt_text(notes), now, r),
    {
        let now = match crate::clock::current_time() {
            Some(t) => t,
            None => return Err(KbError::ClockUnavailable),
        };
        let ghost gnotes = opt_text(notes);
        let mut curator = Curator::new(&mut self.store);
        let r = curator.set_curation_at(entry_id, status, notes, now);
        proof {
            assert(has_resolved(curator));
            assert(set_done(old(self)@, self@, entry_id@, status, gnotes, now, r));
        }
        r
    }

    /// Applies auditor feedback (see [`Curator::apply_feedback`]).
    pub fn apply_feedback(&mut self, feedback: &Vec<FeedbackItem>) -> (r: Result<usize, KbError>)
        ensures
            clock_failed(r) ==> final(self)@ == old(self)@,
            !clock_failed(r) ==> exists|now: Timestamp| #[trigger]
                feedback_done(old(self)@, final(self)@, feedback_items(*feedback), now, r),
    {
        let now = match crate::clock::current_time() {
            Some(t) => t,
            None => return Err(KbError::ClockUnavailable),
        };
        let mut curator = Curator::new(&mut self.store);
        let r = curator.apply_feedback_at(feedback, now);
        proof {
            assert(has_resolved(curator));
            assert(feedback_done(old(self)@, self@, feedback_items(*feedback), now, r));
        }
        r
    }

    // -- Layer 3: agent consumption --
    /// Queries the curated index (see [`QueryEngine::query`]).
    pub fn query(&self, q: &KbQuery) -> (r: Result<KbQueryResult, KbError>)
        ensures
            match curated_all(self@) {
                None => r matches Err(KbError::Malformed(_)),
                Some(all) => r matches Ok(res) && res@ == answer(q@, all),
            },
    {
        QueryEngine::new(&self.store).query(q)
    }

    // -- Seeds --
    /// Imports a seed file: writes it to the seeds directory of its level;
    /// returns the number of its entries.
    pub fn import_seed(&mut self, seed: SeedFile) -> (r: usize)
        ensures
            r == seed@.entries.len(),
            final(self)@ == old(self)@.with_seed(
                SeedDir::of_level(seed.level),
                crate::store::seed_file_name(seed.domain@),
                Some(seed@),
            ),
    {
        let count = seed.entries.len();
        self.store.write_seed(&seed);
        count
    }

    /// The paths of all seed files.
    pub fn list_seeds(&self) -> (r: Vec<String>)
        ensures
            texts(r) == seed_paths_in(self@.base_dir, self@.seeds, SeedDir::Code) + seed_paths_in(
                self@.base_dir,
                self@.seeds,
                SeedDir::Design,
            ) + seed_paths_in(self@.base_dir, self@.seeds, SeedDir::Shared) + seed_paths_in(
                self@.base_dir,
                self@.seeds,
                SeedDir::Root,
            ),
    {
        self.store.list_seed_paths()
    }

    // -- Export --
    /// The seed file that an export writes: the useful and critical entries
    /// of the HIGH file then the MEDIUM file, at level both; and their number.
    /// An error when a curated file is malformed.
    pub fn export_curated(&self, domain: &str, description: &str) -> (r: Result<
        (SeedFile, ExportStats),
        KbError,
    >)
        ensures
            match curated_all(self@) {
                None => r matches Err(KbError::Malformed(_)),
                Some(all) => r matches Ok((seed, stats)) && seed@.domain == domain@
                    && seed@.description == description@ && seed@.level == SeedLevel::Both
                    && seed@.entries == exportable(all) && stats.exported == exportable(all).len(),
            },
    {
        let high = self.store.read_curated(&Impact::High)?;
        let medium = self.store.read_curated(&Impact::Medium)?;
        let mut all: Vec<KbEntry> = Vec::new();
        match &high {
            Some(f) => {
                all = copy_entries(&f.entries);
            },
            None => {},
        }
        let ghost first = entries(all);
        match &medium {
            Some(f) => {
                let mut j: usize = 0;
                while j < f.entries.len()
                    invariant
                        j <= f.entries.len(),
                        entries(all) =~= first + entries(f.entries).take(j as int),
                    decreases f.entries.len() - j,
                {
                    let ghost b = entries(all);
                    all.push(f.entries[j].clone());
                    proof {
                        assert(entries(all) =~= b.push(entries(f.entries)[j as int]));
                        assert(entries(f.entries).take(j + 1) =~= entries(f.entries).take(
                            j as int,
                        ).push(entries(f.entries)[j as int]));
                    }
                    j = j + 1;
                }
                assert(entries(f.entries).take(f.entries@.len() as int) =~= entries(f.entries));
            },
            None => {},
        }
        let ghost allm = entries(all);
        assert(allm =~= self@.curated_entries(Impact::High) + self@.curated_entries(Impact::Medium));
        let mut kept: Vec<KbEntry> = Vec::new();
        let mut i: usize = 0;
        while i < all.len()
            invariant
                i <= all.len(),
                allm == entries(all),
                entries(kept) == exportable(allm.take(i as int)),
            decreases all.len() - i,
        {
            proof {
                assert(allm.take(i + 1) =~= allm.take(i as int).push(allm[i as int]));
                crate::raw::lemma_filter_push(
                    allm.take(i as int),
                    allm[i as int],
                    |e: EntryModel| e.curation.is_positive(),
                );
            }
            if all[i].curation == CurationStatus::Useful || all[i].curation == CurationStatus::Critical {
                let ghost b = entries(kept);
                kept.push(all[i].clone());
                assert(entries(kept) =~= b.push(allm[i as int]));
            }
            i = i + 1;
        }
        assert(allm.take(all@.len() as int) =~= allm);
        let count = kept.len();
        let seed = SeedFile {
            domain: String::from_str(domain),
            description: String::from_str(description),
            level: SeedLevel::Both,
            entries: kept,
        };
        Ok((seed, ExportStats { exported: count }))
    }
}

} // verus!
