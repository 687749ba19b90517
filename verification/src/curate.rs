//! Layer 2, curation: deduplication, restoring earlier curation decisions,
//! scoring, severity bucketing, and auditor feedback.
use vstd::prelude::*;

use crate::clock::current_time;
use crate::order::{reordered, sort_entries_by_keys, SortKey};
use crate::query::curated_all;
use crate::scoring::{
    confidence_for, confidence_from_curation, deduplicate, deduplicated, score_entry, scored,
    CurationContextModel,
};
use crate::store::{clock_failed, KbError, Located, SlotModel, Store, StoreModel};
use crate::types::{
    confirmations, copy_confirmations, copy_entries, copy_opt_text, entries, opt_text,
    ConfirmationModel, CuratedFile, CuratedModel, CurationContext, CurationStats, CurationStatus,
    EntryModel, FeedbackItem, Impact, KbEntry, Pipeline, PipelineConfirmation, Timestamp,
};

verus! {

// ---------------------------------------------------------------------------
// Specification of a curation pass
// ---------------------------------------------------------------------------
/// The last entry with this id, if any (later curated entries override
/// earlier ones).
pub open spec fn last_with_id(es: Seq<EntryModel>, id: Seq<char>) -> Option<EntryModel>
    decreases es.len(),
{
    if es.len() == 0 {
        None
    } else if es.last().id == id {
        Some(es.last())
    } else {
        last_with_id(es.drop_last(), id)
    }
}

/// An entry with the curation decisions of its earlier curated version
/// restored: status and notes always; time of curation and pipeline
/// confirmations when the earlier version has them.
pub open spec fn restored(e: EntryModel, prev: Option<EntryModel>) -> EntryModel {
    match prev {
        None => e,
        Some(p) => EntryModel {
            curation: p.curation,
            auditor_notes: p.auditor_notes,
            last_curated_at: if p.last_curated_at is Some {
                p.last_curated_at
            } else {
                e.last_curated_at
            },
            confirmed_by: if p.confirmed_by.len() > 0 {
                p.confirmed_by
            } else {
                e.confirmed_by
            },
            ..e
        },
    }
}

/// The deduplicated entries with earlier curation restored.
pub open spec fn processed(es: Seq<EntryModel>, existing: Seq<EntryModel>) -> Seq<EntryModel> {
    deduplicated(es).map_values(|e: EntryModel| restored(e, last_with_id(existing, e.id)))
}

/// An entry as a curation pass writes it: a noise entry as it is (so the
/// decision is kept for later passes), any other entry scored at `now`.
pub open spec fn placed(e: EntryModel, ctx: CurationContextModel, now: Timestamp) -> EntryModel {
    if e.curation == CurationStatus::Noise {
        e
    } else {
        scored(e, ctx, now)
    }
}

/// The entries of one impact, as a pass writes them, in order.
pub open spec fn bucket_of(
    ps: Seq<EntryModel>,
    impact: Impact,
    ctx: CurationContextModel,
    now: Timestamp,
) -> Seq<EntryModel>
    decreases ps.len(),
{
    if ps.len() == 0 {
        seq![]
    } else {
        bucket_of(ps.drop_last(), impact, ctx, now) + if ps.last().impact == impact {
            seq![placed(ps.last(), ctx, now)]
        } else {
            seq![]
        }
    }
}

/// The number of entries of one impact that are not noise.
pub open spec fn live_of(ps: Seq<EntryModel>, impact: Impact) -> nat
    decreases ps.len(),
{
    if ps.len() == 0 {
        0
    } else {
        live_of(ps.drop_last(), impact) + if ps.last().impact == impact && ps.last().curation
            != CurationStatus::Noise {
            1nat
        } else {
            0nat
        }
    }
}

/// The number of noise entries.
pub open spec fn noise_of(ps: Seq<EntryModel>) -> nat
    decreases ps.len(),
{
    if ps.len() == 0 {
        0
    } else {
        noise_of(ps.drop_last()) + if ps.last().curation == CurationStatus::Noise {
            1nat
        } else {
            0nat
        }
    }
}

/// A pass counts every processed entry exactly once (HIGH, MEDIUM, or
/// noise), and writes every processed entry to the file of its impact.
pub proof fn lemma_pass_counts(ps: Seq<EntryModel>, ctx: CurationContextModel, now: Timestamp)
    ensures
        live_of(ps, Impact::High) + live_of(ps, Impact::Medium) + noise_of(ps) == ps.len(),
        bucket_of(ps, Impact::High, ctx, now).len() + bucket_of(ps, Impact::Medium, ctx, now).len()
            == ps.len(),
    decreases ps.len(),
{
    if ps.len() > 0 {
        lemma_pass_counts(ps.drop_last(), ctx, now);
    }
}

/// The order of curated entries: curation rank, relevance, quality (all
/// descending).
pub open spec fn curation_key(e: EntryModel) -> SortKey {
    SortKey {
        first: e.curation.spec_rank() as i128,
        second: e.relevance_score as i128,
        third: e.quality_score as i128,
        fourth: 0,
    }
}

/// Entries in curation order (stable).
pub open spec fn curation_sorted(es: Seq<EntryModel>) -> Seq<EntryModel> {
    reordered(es, es.map_values(|e: EntryModel| curation_key(e)))
}

/// The curated entries of one impact after a pass over `es`.
pub open spec fn curated_bucket(
    es: Seq<EntryModel>,
    existing: Seq<EntryModel>,
    impact: Impact,
    ctx: CurationContextModel,
    now: Timestamp,
) -> Seq<EntryModel> {
    curation_sorted(bucket_of(processed(es, existing), impact, ctx, now))
}

/// The statistics of a pass over `es`: the HIGH and MEDIUM entries that are
/// not noise, and the noise entries.
pub open spec fn pass_stats(
    es: Seq<EntryModel>,
    existing: Seq<EntryModel>,
    ctx: CurationContextModel,
    now: Timestamp,
) -> CurationStats {
    let ps = processed(es, existing);
    let h = live_of(ps, Impact::High);
    let m = live_of(ps, Impact::Medium);
    let n = noise_of(ps);
    CurationStats {
        total_processed: (h + m + n) as usize,
        high_count: h as usize,
        medium_count: m as usize,
        noise_skipped: n as usize,
    }
}

/// The store after a pass over `es` at `now`: both curated files rewritten.
pub open spec fn after_pass(
    m: StoreModel,
    es: Seq<EntryModel>,
    existing: Seq<EntryModel>,
    ctx: CurationContextModel,
    now: Timestamp,
) -> StoreModel {
    m.with_slot(
        Impact::High,
        SlotModel::Present(
            CuratedModel {
                impact: Impact::High,
                last_curated_at: now,
                entries: curated_bucket(es, existing, Impact::High, ctx, now),
            },
        ),
    ).with_slot(
        Impact::Medium,
        SlotModel::Present(
            CuratedModel {
                impact: Impact::Medium,
                last_curated_at: now,
                entries: curated_bucket(es, existing, Impact::Medium, ctx, now),
            },
        ),
    )
}

// ---------------------------------------------------------------------------
// Specification of curation updates and feedback
// ---------------------------------------------------------------------------
/// An entry after its curation status is set at `now`: status, time, notes
/// when given, and the confidence the status gives.
pub open spec fn curation_set(
    e: EntryModel,
    status: CurationStatus,
    notes: Option<Seq<char>>,
    now: Timestamp,
) -> EntryModel {
    EntryModel {
        curation: status,
        last_curated_at: Some(now),
        auditor_notes: if notes is Some {
            notes
        } else {
            e.auditor_notes
        },
        confidence: confidence_for(status, e.relevance_score),
        ..e
    }
}

/// The result of setting the curation of an entry: the store after, and
/// whether the entry was found; `None` when a curated file is malformed.
pub open spec fn set_outcome(
    m: StoreModel,
    id: Seq<char>,
    status: CurationStatus,
    notes: Option<Seq<char>>,
    now: Timestamp,
) -> Option<(StoreModel, bool)> {
    match m.locate(id) {
        Located::Failed => None,
        Located::Absent => Some((m, false)),
        Located::At(impact, i) => Some(
            (
                m.with_entry_replaced(
                    impact,
                    i,
                    curation_set(m.curated_entries(impact)[i], status, notes, now),
                ),
                true,
            ),
        ),
    }
}

/// Some confirmation of the list comes from this pipeline.
pub open spec fn confirmed_by_pipeline(cs: Seq<ConfirmationModel>, p: Pipeline) -> bool {
    exists|k: int| 0 <= k < cs.len() && (#[trigger] cs[k]).pipeline == p
}

/// An entry after a confirmation is recorded: added unless the same
/// pipeline already confirmed it.
pub open spec fn confirmed(e: EntryModel, c: ConfirmationModel) -> EntryModel {
    if confirmed_by_pipeline(e.confirmed_by, c.pipeline) {
        e
    } else {
        EntryModel { confirmed_by: e.confirmed_by.push(c), ..e }
    }
}

/// The value of a [`FeedbackItem`].
pub struct FeedbackModel {
    pub entry_id: Seq<char>,
    pub new_status: CurationStatus,
    pub reason: Option<Seq<char>>,
    pub pipeline: Option<Pipeline>,
}

impl View for FeedbackItem {
    type V = FeedbackModel;

    open spec fn view(&self) -> FeedbackModel {
        FeedbackModel {
            entry_id: self.entry_id@,
            new_status: self.new_status,
            reason: opt_text(self.reason),
            pipeline: self.pipeline,
        }
    }
}

/// The state of a feedback run: the store, how many entries were updated,
/// and whether a malformed curated file stopped the run.
pub struct FeedbackRun {
    pub store: StoreModel,
    pub updated: nat,
    pub failed: bool,
}

/// One feedback item at `now`: set the curation status (with the reason as
/// notes); if the entry was found and the status is useful or critical and a
/// pipeline is named, record that pipeline's confirmation.
pub open spec fn feedback_step(run: FeedbackRun, item: FeedbackModel, now: Timestamp) -> FeedbackRun {
    if run.failed {
        run
    } else {
        match set_outcome(run.store, item.entry_id, item.new_status, item.reason, now) {
            None => FeedbackRun { failed: true, ..run },
            Some((m, false)) => FeedbackRun { store: m, ..run },
            Some((m, true)) => {
                let confirm = item.pipeline is Some && item.new_status.is_positive();
                if !confirm {
                    FeedbackRun { store: m, updated: run.updated + 1, failed: false }
                } else {
                    match m.locate(item.entry_id) {
                        Located::Failed => FeedbackRun { store: m, updated: run.updated, failed: true },
                        Located::Absent => FeedbackRun { store: m, updated: run.updated + 1, failed: false },
                        Located::At(impact, i) => FeedbackRun {
                            store: m.with_entry_replaced(
                                impact,
                                i,
                                confirmed(
                                    m.curated_entries(impact)[i],
                                    ConfirmationModel {
                                        pipeline: item.pipeline->0,
                                        confirmed_at: now,
                                        context: item.reason,
                                    },
                                ),
                            ),
                            updated: run.updated + 1,
                            failed: false,
                        },
                    }
                }
            },
        }
    }
}

/// A feedback run over items, in order.
pub open spec fn feedback_run(m: StoreModel, items: Seq<FeedbackModel>, now: Timestamp) -> FeedbackRun
    decreases items.len(),
{
    if items.len() == 0 {
        FeedbackRun { store: m, updated: 0, failed: false }
    } else {
        feedback_step(feedback_run(m, items.drop_last(), now), items.last(), now)
    }
}

/// Once a feedback run fails, later items change nothing.
pub proof fn lemma_failed_run_stays(m: StoreModel, items: Seq<FeedbackModel>, j: int, now: Timestamp)
    requires
        0 <= j <= items.len(),
        feedback_run(m, items.take(j), now).failed,
    ensures
        feedback_run(m, items, now) == feedback_run(m, items.take(j), now),
    decreases items.len() - j,
{
    if j < items.len() {
        assert(items.take(j + 1).drop_last() =~= items.take(j));
        lemma_failed_run_stays(m, items, j + 1, now);
    } else {
        assert(items.take(j) =~= items);
    }
}

/// The values of a list of feedback items.
pub open spec fn feedback_items(v: Vec<FeedbackItem>) -> Seq<FeedbackModel> {
    v@.map_values(|f: FeedbackItem| f@)
}

// ---------------------------------------------------------------------------
// Executable helpers
// ---------------------------------------------------------------------------
/// Finds the last entry with this id.
fn find_last_id(es: &Vec<KbEntry>, id: &str) -> (r: Option<usize>)
    ensures
        match r {
            Some(i) => i < es@.len() && last_with_id(entries(*es), id@) == Some(es@[i as int]@),
            None => last_with_id(entries(*es), id@) is None,
        },
{
    let ghost all = entries(*es);
    let mut found: Option<usize> = None;
    let mut i: usize = 0;
    while i < es.len()
        invariant
            i <= es.len(),
            all == entries(*es),
            match found {
                Some(k) => k < i && last_with_id(all.take(i as int), id@) == Some(es@[k as int]@),
                None => last_with_id(all.take(i as int), id@) is None,
            },
        decreases es.len() - i,
    {
        proof {
            assert(all.take(i + 1).drop_last() =~= all.take(i as int));
            assert(all.take(i + 1).last() == es@[i as int]@);
        }
        if crate::text::same_text(es[i].id.as_str(), id) {
            found = Some(i);
        }
        i = i + 1;
    }
    assert(all.take(es@.len() as int) =~= all);
    found
}

/// Restores the curation decisions of an earlier curated version.
fn restore(entry: &mut KbEntry, prev: &KbEntry)
    ensures
        final(entry)@ == restored(old(entry)@, Some(prev@)),
{
    entry.curation = prev.curation;
    entry.auditor_notes = copy_opt_text(&prev.auditor_notes);
    if prev.last_curated_at.is_some() {
        entry.last_curated_at = prev.last_curated_at;
    }
    if prev.confirmed_by.len() > 0 {
        entry.confirmed_by = copy_confirmations(&prev.confirmed_by);
    }
}

/// Sorts curated entries: curation rank, relevance, quality (descending;
/// ties keep their order).
pub fn sort_entries(es: &Vec<KbEntry>) -> (r: Vec<KbEntry>)
    ensures
        entries(r) == curation_sorted(entries(*es)),
{
    let mut keys: Vec<SortKey> = Vec::new();
    let mut i: usize = 0;
    while i < es.len()
        invariant
            i <= es.len(),
            keys@.len() == i,
            forall|k: int| 0 <= k < i ==> #[trigger] keys@[k] == curation_key(es@[k]@),
        decreases es.len() - i,
    {
        let e = &es[i];
        keys.push(
            SortKey {
                first: e.curation.rank() as i128,
                second: e.relevance_score as i128,
                third: e.quality_score as i128,
                fourth: 0,
            },
        );
        i = i + 1;
    }
    assert(keys@ =~= entries(*es).map_values(|e: EntryModel| curation_key(e)));
    sort_entries_by_keys(es, &keys)
}

// ---------------------------------------------------------------------------
// The curator
// ---------------------------------------------------------------------------
/// Layer 2: scoring, deduplication, severity bucketing, and feedback.
pub struct Curator<'a> {
    pub store: &'a mut Store,
}

impl<'a> Curator<'a> {
    pub fn new(store: &'a mut Store) -> (r: Self)
        ensures
            *r.store == *old(store),
            *final(r.store) == *final(store),
    {
        Curator { store }
    }

    /// The contents of the store that this curator works on.
    pub open spec fn stored(&self) -> StoreModel {
        (*self.store)@
    }

    /// The entries of the curated files, HIGH then MEDIUM; an error when one
    /// of them is malformed.
    fn load_existing_curation(&self) -> (r: Result<Vec<KbEntry>, KbError>)
        ensures
            match curated_all(self.stored()) {
                None => r matches Err(KbError::Malformed(_)),
                Some(all) => r matches Ok(v) && entries(v) == all,
            },
    {
        let mut all: Vec<KbEntry> = Vec::new();
        let high = self.store.read_curated(&Impact::High)?;
        match &high {
            Some(file) => {
                all = copy_entries(&file.entries);
            },
            None => {},
        }
        let medium = self.store.read_curated(&Impact::Medium)?;
        let ghost first = entries(all);
        match &medium {
            Some(file) => {
                let mut j: usize = 0;
                while j < file.entries.len()
                    invariant
                        j <= file.entries.len(),
                        entries(all) =~= first + entries(file.entries).take(j as int),
                    decreases file.entries.len() - j,
                {
                    let ghost b = entries(all);
                    all.push(file.entries[j].clone());
                    proof {
                        assert(entries(all) =~= b.push(entries(file.entries)[j as int]));
                        assert(entries(file.entries).take(j + 1) =~= entries(file.entries).take(
                            j as int,
                        ).push(entries(file.entries)[j as int]));
                    }
                    j = j + 1;
                }
                assert(entries(file.entries).take(file.entries@.len() as int) =~= entries(
                    file.entries,
                ));
            },
            None => {},
        }
        assert(entries(all) =~= self.stored().curated_entries(Impact::High)
            + self.stored().curated_entries(Impact::Medium));
        Ok(all)
    }

    /// Runs a curation pass over the entries at the time of the system clock.
    pub fn curate(&mut self, entries: Vec<KbEntry>, context: &CurationContext) -> (r: Result<
        CurationStats,
        KbError,
    >)
        ensures
            *final(final(self).store) == *final(old(self).store),
            clock_failed(r) ==> final(self).stored() == old(self).stored(),
            !clock_failed(r) ==> exists|now: Timestamp| #[trigger]
                curated(
                    old(self).stored(),
                    final(self).stored(),
                    crate::types::entries(entries),
                    context@,
                    now,
                    r,
                ),
    {
        let now = match current_time() {
            Some(t) => t,
            None => return Err(KbError::ClockUnavailable),
        };
        self.curate_at(entries, context, now)
    }

    /// Runs a curation pass at `now`: deduplicates by slug, restores the
    /// curation of entries already curated, scores the entries that are not
    /// noise (noise entries are counted as skipped and written back as they
    /// are, so the decision holds in later passes; queries leave them out by
    /// default), and rewrites both curated files with their entries sorted.
    /// An error, with nothing written, when a curated file is malformed.
    pub fn curate_at(&mut self, entries: Vec<KbEntry>, context: &CurationContext, now: Timestamp) -> (r:
        Result<CurationStats, KbError>)
        ensures
            *final(final(self).store) == *final(old(self).store),
            curated(
                old(self).stored(),
                final(self).stored(),
                crate::types::entries(entries),
                context@,
                now,
                r,
            ),
    {
        let existing = self.load_existing_curation()?;
        let ghost ex = crate::types::entries(existing);
        let ghost input = crate::types::entries(entries);
        let deduped = deduplicate(entries);
        let ghost ps = processed(input, ex);
        let mut high: Vec<KbEntry> = Vec::new();
        let mut medium: Vec<KbEntry> = Vec::new();
        let mut noise: usize = 0;
        let mut high_count: usize = 0;
        let mut medium_count: usize = 0;
        let mut i: usize = 0;
        while i < deduped.len()
            invariant
                i <= deduped.len(),
                ex == crate::types::entries(existing),
                ps == processed(input, ex),
                crate::types::entries(deduped) == deduplicated(input),
                crate::types::entries(high) == bucket_of(ps.take(i as int), Impact::High, context@, now),
                crate::types::entries(medium) == bucket_of(ps.take(i as int), Impact::Medium, context@, now),
                noise == noise_of(ps.take(i as int)),
                high_count == live_of(ps.take(i as int), Impact::High),
                medium_count == live_of(ps.take(i as int), Impact::Medium),
                noise + high_count + medium_count == i,
            decreases deduped.len() - i,
        {
            let mut e = deduped[i].clone();
            match find_last_id(&existing, e.id.as_str()) {
                Some(k) => restore(&mut e, &existing[k]),
                None => {},
            }
            proof {
                assert(ps[i as int] == e@);
                assert(ps.take(i + 1).drop_last() =~= ps.take(i as int));
                assert(ps.take(i + 1).last() == e@);
                lemma_pass_counts(ps.take(i as int), context@, now);
            }
            let ghost before = e@;
            if e.curation == CurationStatus::Noise {
                noise = noise + 1;
            } else {
                score_entry(&mut e, context, now);
                match e.impact {
                    Impact::High => {
                        high_count = high_count + 1;
                    },
                    Impact::Medium => {
                        medium_count = medium_count + 1;
                    },
                }
            }
            assert(e@ == placed(before, context@, now));
            match e.impact {
                Impact::High => {
                    let ghost b = crate::types::entries(high);
                    high.push(e);
                    assert(crate::types::entries(high) =~= b + seq![placed(before, context@, now)]);
                },
                Impact::Medium => {
                    let ghost b = crate::types::entries(medium);
                    medium.push(e);
                    assert(crate::types::entries(medium) =~= b + seq![placed(before, context@, now)]);
                },
            }
            i = i + 1;
        }
        proof {
            assert(ps.take(deduped@.len() as int) =~= ps);
        }
        let high = sort_entries(&high);
        let medium = sort_entries(&medium);
        let stats = CurationStats {
            total_processed: high_count + medium_count + noise,
            high_count,
            medium_count,
            noise_skipped: noise,
        };
        self.store.write_curated(&CuratedFile { impact: Impact::High, last_curated_at: now, entries: high });
        self.store.write_curated(
            &CuratedFile { impact: Impact::Medium, last_curated_at: now, entries: medium },
        );
        Ok(stats)
    }

    /// Sets the curation status of the entry with this id at the time of
    /// the system clock. Returns whether the entry was found.
    pub fn set_curation(&mut self, entry_id: &str, status: CurationStatus, notes: Option<String>) -> (r:
        Result<bool, KbError>)
        ensures
            *final(final(self).store) == *final(old(self).store),
            clock_failed(r) ==> final(self).stored() == old(self).stored(),
            !clock_failed(r) ==> exists|now: Timestamp| #[trigger]
                set_done(old(self).stored(), final(self).stored(), entry_id@, status, opt_text(notes), now, r),
    {
        let now = match current_time() {
            Some(t) => t,
            None => return Err(KbError::ClockUnavailable),
        };
        self.set_curation_at(entry_id, status, notes, now)
    }

    /// Sets the curation status of the entry with this id at `now`: the
    /// status, the time, the notes when given, and the confidence the status
    /// gives. Returns whether the entry was found.
    pub fn set_curation_at(
        &mut self,
        entry_id: &str,
        status: CurationStatus,
        notes: Option<String>,
        now: Timestamp,
    ) -> (r: Result<bool, KbError>)
        ensures
            *final(final(self).store) == *final(old(self).store),
            set_done(old(self).stored(), final(self).stored(), entry_id@, status, opt_text(notes), now, r),
    {
        let ghost gnotes = opt_text(notes);
        let updater = move |e: KbEntry| -> (r: KbEntry)
            ensures
                r@ == curation_set(e@, status, gnotes, now),
            {
                let mut e = e;
                e.curation = status;
                e.last_curated_at = Some(now);
                match notes {
                    Some(n) => {
                        e.auditor_notes = Some(n);
                    },
                    None => {},
                }
                e.confidence = confidence_from_curation(&e.curation, e.relevance_score);
                e
            };
        self.store.update_curated_entry(entry_id, updater)
    }

    /// Applies feedback items at the time of the system clock; returns how
    /// many entries were updated.
    pub fn apply_feedback(&mut self, feedback: &Vec<FeedbackItem>) -> (r: Result<usize, KbError>)
        ensures
            *final(final(self).store) == *final(old(self).store),
            clock_failed(r) ==> final(self).stored() == old(self).stored(),
            !clock_failed(r) ==> exists|now: Timestamp| #[trigger]
                feedback_done(old(self).stored(), final(self).stored(), feedback_items(*feedback), now, r),
    {
        let now = match current_time() {
            Some(t) => t,
            None => return Err(KbError::ClockUnavailable),
        };
        self.apply_feedback_at(feedback, now)
    }

    /// Applies feedback items at `now`, in order: each sets the curation
    /// status of its entry, with the reason as notes; when the entry was
    /// found, the status is useful or critical, and a pipeline is named, that
    /// pipeline's confirmation is recorded once. Returns how many entries
    /// were updated; a malformed curated file stops the run with an error,
    /// keeping the updates made before.
    pub fn apply_feedback_at(&mut self, feedback: &Vec<FeedbackItem>, now: Timestamp) -> (r: Result<
        usize,
        KbError,
    >)
        ensures
            *final(final(self).store) == *final(old(self).store),
            feedback_done(old(self).stored(), final(self).stored(), feedback_items(*feedback), now, r),
    {
        let ghost items = feedback_items(*feedback);
        let ghost start = self.stored();
        let mut updated: usize = 0;
        let mut i: usize = 0;
        while i < feedback.len()
            invariant
                i <= feedback.len(),
                items == feedback_items(*feedback),
                start == old(self).stored(),
                *final(self.store) == *final(old(self).store),
                feedback_run(start, items.take(i as int), now) == (FeedbackRun {
                    store: self.stored(),
                    updated: updated as nat,
                    failed: false,
                }),
                updated <= i,
            decreases feedback.len() - i,
        {
            proof {
                assert(items.take(i + 1).drop_last() =~= items.take(i as int));
                assert(items.take(i + 1).last() == feedback@[i as int]@);
            }
            let item = &feedback[i];
            let notes = copy_opt_text(&item.reason);
            let found = match self.set_curation_at(item.entry_id.as_str(), item.new_status, notes, now) {
                Ok(b) => b,
                Err(e) => {
                    proof {
                        assert(items.take(i + 1).last() == items[i as int]);
                        assert(feedback_run(start, items.take(i + 1), now) == feedback_step(
                            feedback_run(start, items.take(i as int), now),
                            items[i as int],
                            now,
                        ));
                        lemma_failed_run_stays(start, items, i + 1, now);
                    }
                    return Err(e);
                },
            };
            if found {
                match item.pipeline {
                    Some(p) => {
                        if item.new_status == CurationStatus::Useful || item.new_status
                            == CurationStatus::Critical {
                            let confirmation = PipelineConfirmation {
                                pipeline: p,
                                confirmed_at: now,
                                context: copy_opt_text(&item.reason),
                            };
                            let ghost c = confirmation@;
                            let updater = move |e: KbEntry| -> (r: KbEntry)
                                ensures
                                    r@ == confirmed(e@, c),
                                {
                                    let mut e = e;
                                    let mut k: usize = 0;
                                    let mut seen = false;
                                    while k < e.confirmed_by.len()
                                        invariant
                                            k <= e.confirmed_by.len(),
                                            c == confirmation@,
                                            seen == exists|j: int|
                                                0 <= j < k && (#[trigger] e.confirmed_by@[j]).pipeline == c.pipeline,
                                        decreases e.confirmed_by.len() - k,
                                    {
                                        if e.confirmed_by[k].pipeline == confirmation.pipeline {
                                            seen = true;
                                            assert(e.confirmed_by@[k as int].pipeline == c.pipeline);
                                        }
                                        k = k + 1;
                                    }
                                    proof {
                                        assert forall|j: int| 0 <= j < e.confirmed_by@.len() implies
                                            (#[trigger] confirmations(e.confirmed_by)[j]).pipeline
                                            == e.confirmed_by@[j].pipeline by {}
                                        if seen {
                                            let j = choose|j: int|
                                                0 <= j < e.confirmed_by@.len() && (#[trigger] e.confirmed_by@[j]).pipeline == c.pipeline;
                                            assert(confirmations(e.confirmed_by)[j].pipeline == c.pipeline);
                                        }
                                        assert(seen == confirmed_by_pipeline(e@.confirmed_by, c.pipeline));
                                    }
                                    if !seen {
                                        let ghost b = confirmations(e.confirmed_by);
                                        e.confirmed_by.push(confirmation);
                                        assert(confirmations(e.confirmed_by) =~= b.push(c));
                                    }
                                    e
                                };
                            match self.store.update_curated_entry(item.entry_id.as_str(), updater) {
                                Ok(_) => {},
                                Err(e) => {
                                    proof {
                                        lemma_failed_run_stays(start, items, i + 1, now);
                                    }
                                    return Err(e);
                                },
                            }
                        }
                    },
                    None => {},
                }
                updated = updated + 1;
            }
            i = i + 1;
        }
        proof {
            assert(items.take(feedback@.len() as int) =~= items);
        }
        Ok(updated)
    }
}

/// `after` and `r` are the store and result of a curation pass over `es` at
/// `now`, starting from `before`.
pub open spec fn curated(
    before: StoreModel,
    after: StoreModel,
    es: Seq<EntryModel>,
    ctx: CurationContextModel,
    now: Timestamp,
    r: Result<CurationStats, KbError>,
) -> bool {
    match curated_all(before) {
        None => r matches Err(KbError::Malformed(_)) && after == before,
        Some(existing) => r == Ok::<CurationStats, KbError>(pass_stats(es, existing, ctx, now))
            && after == after_pass(before, es, existing, ctx, now),
    }
}

/// `after` and `r` are the store and result of setting a curation status.
pub open spec fn set_done(
    before: StoreModel,
    after: StoreModel,
    id: Seq<char>,
    status: CurationStatus,
    notes: Option<Seq<char>>,
    now: Timestamp,
    r: Result<bool, KbError>,
) -> bool {
    match set_outcome(before, id, status, notes, now) {
        None => r matches Err(KbError::Malformed(_)) && after == before,
        Some((m, found)) => r == Ok::<bool, KbError>(found) && after == m,
    }
}

/// `after` and `r` are the store and result of a feedback run.
pub open spec fn feedback_done(
    before: StoreModel,
    after: StoreModel,
    items: Seq<FeedbackModel>,
    now: Timestamp,
    r: Result<usize, KbError>,
) -> bool {
    let run = feedback_run(before, items, now);
    after == run.store && if run.failed {
        r matches Err(KbError::Malformed(_))
    } else {
        r == Ok::<usize, KbError>(run.updated as usize)
    }
}

} // verus!
