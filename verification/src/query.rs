//! Layer 3, agent consumption: the curated entries (HIGH first, then
//! MEDIUM), filtered by the query, re-ranked for the asking pipeline, and cut
//! to the caller's budget.
use vstd::prelude::*;

use crate::order::{reordered, sort_entries_by_keys, SortKey};
use crate::store::{KbError, SlotModel, Store, StoreModel};
use crate::text::{contains, eq_ascii_fold, eq_ignore_ascii_case, is_substring, lowercase, to_lowercase};
use crate::types::{
    copy_entries, entries, texts, CurationStatus, EntryModel, Impact, KbEntry, KbQuery,
    KbQueryResult, Pipeline,
};

verus! {

/// The value of a [`KbQuery`].
pub struct QueryModel {
    pub tags: Seq<Seq<char>>,
    pub categories: Seq<Seq<char>>,
    pub keywords: Seq<Seq<char>>,
    pub max_entries: usize,
    pub exclude_noise: bool,
    pub pipeline: Option<Pipeline>,
}

impl View for KbQuery {
    type V = QueryModel;

    open spec fn view(&self) -> QueryModel {
        QueryModel {
            tags: texts(self.tags),
            categories: texts(self.categories),
            keywords: texts(self.keywords),
            max_entries: self.max_entries,
            exclude_noise: self.exclude_noise,
            pipeline: self.pipeline,
        }
    }
}

/// The value of a [`KbQueryResult`].
pub struct ResultModel {
    pub entries: Seq<EntryModel>,
    pub total_available: usize,
    pub truncated: bool,
}

impl View for KbQueryResult {
    type V = ResultModel;

    open spec fn view(&self) -> ResultModel {
        ResultModel {
            entries: entries(self.entries),
            total_available: self.total_available,
            truncated: self.truncated,
        }
    }
}

// ---------------------------------------------------------------------------
// Filters
// ---------------------------------------------------------------------------
/// Some entry tag equals some query tag, ignoring ASCII case.
pub open spec fn tags_overlap(entry_tags: Seq<Seq<char>>, query_tags: Seq<Seq<char>>) -> bool {
    exists|i: int, j: int|
        0 <= i < entry_tags.len() && 0 <= j < query_tags.len() && eq_ascii_fold(
            #[trigger] entry_tags[i],
            #[trigger] query_tags[j],
        )
}

/// The entry category equals some query category, ignoring ASCII case.
pub open spec fn category_matches(category: Seq<char>, query_categories: Seq<Seq<char>>) -> bool {
    exists|j: int| 0 <= j < query_categories.len() && eq_ascii_fold(category, #[trigger] query_categories[j])
}

/// The summary of an entry, or the empty text.
pub open spec fn summary_text(e: EntryModel) -> Seq<char> {
    match e.summary {
        Some(s) => s,
        None => seq![],
    }
}

/// Some keyword, lowercased, occurs in the lowercased title or summary.
pub open spec fn keywords_match(e: EntryModel, keywords: Seq<Seq<char>>) -> bool {
    exists|j: int|
        0 <= j < keywords.len() && (is_substring(lowercase(#[trigger] keywords[j]), lowercase(e.title))
            || is_substring(lowercase(keywords[j]), lowercase(summary_text(e))))
}

/// An entry passes the filters of a query: not noise (when noise is
/// excluded), and matching each non-empty list of tags, categories and
/// keywords.
pub open spec fn passes(q: QueryModel, e: EntryModel) -> bool {
    &&& !(q.exclude_noise && e.curation == CurationStatus::Noise)
    &&& (q.tags.len() == 0 || tags_overlap(e.tags, q.tags))
    &&& (q.categories.len() == 0 || category_matches(e.category, q.categories))
    &&& (q.keywords.len() == 0 || keywords_match(e, q.keywords))
}

/// The entries that pass the filters of a query, in order.
pub open spec fn filtered(q: QueryModel, es: Seq<EntryModel>) -> Seq<EntryModel> {
    es.filter(|e: EntryModel| passes(q, e))
}

// ---------------------------------------------------------------------------
// Pipeline-aware ranking
// ---------------------------------------------------------------------------
/// The entry has context at the abstraction level of the pipeline.
pub open spec fn has_pipeline_context(e: EntryModel, p: Pipeline) -> bool {
    match p {
        Pipeline::DesignReview => e.design_context is Some,
        Pipeline::AuditSandbox => e.code_context is Some,
    }
}

/// The ranking key for a pipeline: severity, then curation rank, then
/// context at the pipeline's level, then relevance (all descending).
pub open spec fn boost_key(e: EntryModel, p: Pipeline) -> SortKey {
    SortKey {
        first: e.impact.spec_rank() as i128,
        second: e.curation.spec_rank() as i128,
        third: if has_pipeline_context(e, p) {
            1
        } else {
            0
        },
        fourth: e.relevance_score as i128,
    }
}

/// The entries ranked for a pipeline (stable).
pub open spec fn boosted(es: Seq<EntryModel>, p: Pipeline) -> Seq<EntryModel> {
    reordered(es, es.map_values(|e: EntryModel| boost_key(e, p)))
}

/// Entries in the order a pipeline asks for: severity never increases;
/// within a severity the curation rank never increases; within a severity
/// and curation status, entries with context at the pipeline's level come
/// first; and among entries alike in all three, relevance never increases.
pub open spec fn pipeline_ordered(s: Seq<EntryModel>, p: Pipeline) -> bool {
    forall|i: int, j: int|
        #![trigger s[i], s[j]]
        0 <= i < j < s.len() ==> {
            &&& s[i].impact.spec_rank() >= s[j].impact.spec_rank()
            &&& (s[i].impact == s[j].impact ==> s[i].curation.spec_rank() >= s[j].curation.spec_rank())
            &&& (s[i].impact == s[j].impact && s[i].curation == s[j].curation && has_pipeline_context(
                s[j],
                p,
            ) ==> has_pipeline_context(s[i], p))
            &&& (s[i].impact == s[j].impact && s[i].curation == s[j].curation && has_pipeline_context(
                s[i],
                p,
            ) == has_pipeline_context(s[j], p) ==> s[i].relevance_score >= s[j].relevance_score)
        }
}

/// Entries ranked for a pipeline are in the order it asks for.
pub proof fn lemma_boosted_order(es: Seq<EntryModel>, p: Pipeline)
    ensures
        pipeline_ordered(boosted(es, p), p),
        boosted(es, p).len() == es.len(),
{
    let keys = es.map_values(|e: EntryModel| boost_key(e, p));
    crate::order::lemma_reordered_sorted(es, keys);
    let so = crate::order::stable_order(keys);
    let b = boosted(es, p);
    assert forall|i: int, j: int| 0 <= i < j < b.len() implies {
        &&& #[trigger] b[i].impact.spec_rank() >= #[trigger] b[j].impact.spec_rank()
        &&& (b[i].impact == b[j].impact ==> b[i].curation.spec_rank() >= b[j].curation.spec_rank())
        &&& (b[i].impact == b[j].impact && b[i].curation == b[j].curation && has_pipeline_context(
            b[j],
            p,
        ) ==> has_pipeline_context(b[i], p))
        &&& (b[i].impact == b[j].impact && b[i].curation == b[j].curation && has_pipeline_context(
            b[i],
            p,
        ) == has_pipeline_context(b[j], p) ==> b[i].relevance_score >= b[j].relevance_score)
    } by {
        assert(crate::order::key_geq(keys[so[i]], keys[so[j]]));
        assert(b[i] == es[so[i]] && b[j] == es[so[j]]);
        assert(keys[so[i]] == boost_key(b[i], p) && keys[so[j]] == boost_key(b[j], p));
    }
}

/// The ranking key without a pipeline: severity, then curation rank (both
/// descending).
pub open spec fn severity_key(e: EntryModel) -> SortKey {
    SortKey { first: e.impact.spec_rank() as i128, second: e.curation.spec_rank() as i128, third: 0, fourth: 0 }
}

/// The entries ranked by severity, then curation rank (stable).
pub open spec fn by_severity(es: Seq<EntryModel>) -> Seq<EntryModel> {
    reordered(es, es.map_values(|e: EntryModel| severity_key(e)))
}

/// The entries ranked for the query: for its pipeline if it names one, else
/// by severity and curation rank.
pub open spec fn ranked(q: QueryModel, es: Seq<EntryModel>) -> Seq<EntryModel> {
    match q.pipeline {
        Some(p) => boosted(es, p),
        None => by_severity(es),
    }
}

/// The answer to a query over the curated entries: the filtered and ranked
/// entries cut to the budget, how many there were, and whether some were cut.
pub open spec fn answer(q: QueryModel, all: Seq<EntryModel>) -> ResultModel {
    let matching = ranked(q, filtered(q, all));
    ResultModel {
        entries: matching.take(
            if q.max_entries < matching.len() {
                q.max_entries as int
            } else {
                matching.len() as int
            },
        ),
        total_available: matching.len() as usize,
        truncated: matching.len() > q.max_entries,
    }
}

/// The curated entries, HIGH then MEDIUM; `None` when a curated file is
/// malformed.
pub open spec fn curated_all(m: StoreModel) -> Option<Seq<EntryModel>> {
    if m.high is Malformed || m.medium is Malformed {
        None
    } else {
        Some(m.curated_entries(Impact::High) + m.curated_entries(Impact::Medium))
    }
}

// ---------------------------------------------------------------------------
// Executable filters
// ---------------------------------------------------------------------------
/// Whether any entry tag matches any query tag (ASCII case-insensitive).
pub fn has_overlap(entry_tags: &Vec<String>, query_tags: &Vec<String>) -> (r: bool)
    ensures
        r == tags_overlap(texts(*entry_tags), texts(*query_tags)),
{
    let mut i: usize = 0;
    while i < entry_tags.len()
        invariant
            i <= entry_tags.len(),
            forall|a: int, b: int|
                0 <= a < i && 0 <= b < query_tags@.len() ==> !eq_ascii_fold(
                    #[trigger] texts(*entry_tags)[a],
                    #[trigger] texts(*query_tags)[b],
                ),
        decreases entry_tags.len() - i,
    {
        let mut j: usize = 0;
        while j < query_tags.len()
            invariant
                i < entry_tags.len(),
                j <= query_tags.len(),
                forall|a: int, b: int|
                    0 <= a < i && 0 <= b < query_tags@.len() ==> !eq_ascii_fold(
                        #[trigger] texts(*entry_tags)[a],
                        #[trigger] texts(*query_tags)[b],
                    ),
                forall|b: int|
                    0 <= b < j ==> !eq_ascii_fold(
                        texts(*entry_tags)[i as int],
                        #[trigger] texts(*query_tags)[b],
                    ),
            decreases query_tags.len() - j,
        {
            if eq_ignore_ascii_case(entry_tags[i].as_str(), query_tags[j].as_str()) {
                assert(eq_ascii_fold(texts(*entry_tags)[i as int], texts(*query_tags)[j as int]));
                return true;
            }
            j = j + 1;
        }
        i = i + 1;
    }
    false
}

/// Whether the entry category matches any query category (ASCII
/// case-insensitive).
pub fn matches_category(entry_cat: &str, query_cats: &Vec<String>) -> (r: bool)
    ensures
        r == category_matches(entry_cat@, texts(*query_cats)),
{
    let mut j: usize = 0;
    while j < query_cats.len()
        invariant
            j <= query_cats.len(),
            forall|b: int| 0 <= b < j ==> !eq_ascii_fold(entry_cat@, #[trigger] texts(*query_cats)[b]),
        decreases query_cats.len() - j,
    {
        if eq_ignore_ascii_case(entry_cat, query_cats[j].as_str()) {
            assert(eq_ascii_fold(entry_cat@, texts(*query_cats)[j as int]));
            return true;
        }
        j = j + 1;
    }
    false
}

/// Whether any keyword appears in the entry's title or summary
/// (case-insensitive).
pub fn matches_keywords(entry: &KbEntry, keywords: &Vec<String>) -> (r: bool)
    ensures
        r == keywords_match(entry@, texts(*keywords)),
{
    let title_lower = to_lowercase(entry.title.as_str());
    let summary_lower = match &entry.summary {
        Some(s) => to_lowercase(s.as_str()),
        None => to_lowercase(""),
    };
    proof {
        if entry.summary is None {
            reveal_strlit("");
            assert(""@ =~= seq![]);
        }
    }
    let mut j: usize = 0;
    while j < keywords.len()
        invariant
            j <= keywords.len(),
            title_lower@ == lowercase(entry@.title),
            summary_lower@ == lowercase(summary_text(entry@)),
            forall|b: int|
                0 <= b < j ==> !(is_substring(lowercase(#[trigger] texts(*keywords)[b]), lowercase(entry@.title))
                    || is_substring(lowercase(texts(*keywords)[b]), lowercase(summary_text(entry@)))),
        decreases keywords.len() - j,
    {
        let kw_lower = to_lowercase(keywords[j].as_str());
        if contains(title_lower.as_str(), kw_lower.as_str()) || contains(
            summary_lower.as_str(),
            kw_lower.as_str(),
        ) {
            assert(texts(*keywords)[j as int] == keywords@[j as int]@);
            return true;
        }
        j = j + 1;
    }
    false
}

/// Whether an entry passes the filters of a query.
pub fn passes_filters(q: &KbQuery, e: &KbEntry) -> (r: bool)
    ensures
        r == passes(q@, e@),
{
    if q.exclude_noise && e.curation == CurationStatus::Noise {
        return false;
    }
    if q.tags.len() != 0 && !has_overlap(&e.tags, &q.tags) {
        return false;
    }
    if q.categories.len() != 0 && !matches_category(e.category.as_str(), &q.categories) {
        return false;
    }
    if q.keywords.len() != 0 && !matches_keywords(e, &q.keywords) {
        return false;
    }
    true
}

/// Whether the entry has context at the pipeline's abstraction level.
pub fn has_context_for(entry: &KbEntry, pipeline: Pipeline) -> (r: bool)
    ensures
        r == has_pipeline_context(entry@, pipeline),
{
    match pipeline {
        Pipeline::DesignReview => entry.design_context.is_some(),
        Pipeline::AuditSandbox => entry.code_context.is_some(),
    }
}

/// Re-ranks entries for a pipeline: severity, curation rank, context at the
/// pipeline's level, relevance; entries that tie keep their order.
pub fn stable_pipeline_boost(es: &Vec<KbEntry>, pipeline: Pipeline) -> (r: Vec<KbEntry>)
    ensures
        entries(r) == boosted(entries(*es), pipeline),
        pipeline_ordered(entries(r), pipeline),
        r@.len() == es@.len(),
{
    proof {
        lemma_boosted_order(entries(*es), pipeline);
    }
    let mut keys: Vec<SortKey> = Vec::new();
    let mut i: usize = 0;
    while i < es.len()
        invariant
            i <= es.len(),
            keys@.len() == i,
            forall|k: int| 0 <= k < i ==> #[trigger] keys@[k] == boost_key(es@[k]@, pipeline),
        decreases es.len() - i,
    {
        let e = &es[i];
        let third: i128 = if has_context_for(e, pipeline) {
            1
        } else {
            0
        };
        keys.push(
            SortKey {
                first: e.impact.rank() as i128,
                second: e.curation.rank() as i128,
                third,
                fourth: e.relevance_score as i128,
            },
        );
        i = i + 1;
    }
    assert(keys@ =~= entries(*es).map_values(|e: EntryModel| boost_key(e, pipeline)));
    sort_entries_by_keys(es, &keys)
}

/// Ranks entries by severity, then curation rank; entries that tie keep
/// their order.
pub fn sort_by_severity(es: &Vec<KbEntry>) -> (r: Vec<KbEntry>)
    ensures
        entries(r) == by_severity(entries(*es)),
{
    let mut keys: Vec<SortKey> = Vec::new();
    let mut i: usize = 0;
    while i < es.len()
        invariant
            i <= es.len(),
            keys@.len() == i,
            forall|k: int| 0 <= k < i ==> #[trigger] keys@[k] == severity_key(es@[k]@),
        decreases es.len() - i,
    {
        let e = &es[i];
        keys.push(
            SortKey { first: e.impact.rank() as i128, second: e.curation.rank() as i128, third: 0, fourth: 0 },
        );
        i = i + 1;
    }
    assert(keys@ =~= entries(*es).map_values(|e: EntryModel| severity_key(e)));
    sort_entries_by_keys(es, &keys)
}

/// Filtering a list with one more element.
proof fn lemma_filter_push(s: Seq<EntryModel>, x: EntryModel, p: spec_fn(EntryModel) -> bool)
    ensures
        s.push(x).filter(p) == if p(x) {
            s.filter(p).push(x)
        } else {
            s.filter(p)
        },
{
    crate::raw::lemma_filter_push(s, x, p);
}

/// Answers a query over a list of curated entries.
pub fn answer_query(all: &Vec<KbEntry>, q: &KbQuery) -> (r: KbQueryResult)
    ensures
        r@ == answer(q@, entries(*all)),
{
    let ghost allm = entries(*all);
    let mut kept: Vec<KbEntry> = Vec::new();
    let mut i: usize = 0;
    while i < all.len()
        invariant
            i <= all.len(),
            allm == entries(*all),
            entries(kept) == filtered(q@, allm.take(i as int)),
        decreases all.len() - i,
    {
        proof {
            assert(allm.take(i + 1) =~= allm.take(i as int).push(allm[i as int]));
            lemma_filter_push(allm.take(i as int), allm[i as int], |e: EntryModel| passes(q@, e));
        }
        let ghost before = entries(kept);
        if passes_filters(q, &all[i]) {
            kept.push(all[i].clone());
            assert(entries(kept) =~= before.push(all@[i as int]@));
        }
        i = i + 1;
    }
    assert(allm.take(all@.len() as int) =~= allm);
    let ranked_entries = match q.pipeline {
        Some(p) => stable_pipeline_boost(&kept, p),
        None => sort_by_severity(&kept),
    };
    let total_available = ranked_entries.len();
    let truncated = total_available > q.max_entries;
    let n = if q.max_entries < total_available {
        q.max_entries
    } else {
        total_available
    };
    let mut out: Vec<KbEntry> = Vec::new();
    let mut k: usize = 0;
    while k < n
        invariant
            k <= n,
            n <= ranked_entries@.len(),
            entries(out) =~= entries(ranked_entries).take(k as int),
        decreases n - k,
    {
        let ghost b = entries(out);
        out.push(ranked_entries[k].clone());
        proof {
            assert(entries(out) =~= b.push(entries(ranked_entries)[k as int]));
            assert(entries(ranked_entries).take(k + 1) =~= entries(ranked_entries).take(k as int).push(
                entries(ranked_entries)[k as int],
            ));
        }
        k = k + 1;
    }
    KbQueryResult { entries: out, total_available, truncated }
}

/// Layer 3: filtered, ranked, budget-cut queries over the curated index.
pub struct QueryEngine<'a> {
    store: &'a Store,
}

impl<'a> QueryEngine<'a> {
    pub fn new(store: &'a Store) -> (r: Self)
        ensures
            r.stored() == store@,
    {
        QueryEngine { store }
    }

    /// The contents of the store that this engine reads.
    pub closed spec fn stored(&self) -> StoreModel {
        self.store@
    }

    /// Queries the curated index: the entries of the HIGH file then the
    /// MEDIUM file, filtered, ranked for the query's pipeline, and cut to
    /// the budget. An error when a curated file is malformed.
    pub fn query(&self, q: &KbQuery) -> (r: Result<KbQueryResult, KbError>)
        ensures
            match curated_all(self.stored()) {
                None => r matches Err(KbError::Malformed(_)),
                Some(all) => r matches Ok(res) && res@ == answer(q@, all),
            },
    {
        let mut all: Vec<KbEntry> = Vec::new();
        let high = self.store.read_curated(&Impact::High)?;
        match &high {
            Some(file) => {
                all = copy_entries(&file.entries);
            },
            None => {},
        }
        let medium = self.store.read_curated(&Impact::Medium)?;
        let ghost first = entries(all);
        match &medium {
            Some(file) => {
                let mut j: usize = 0;
                while j < file.entries.len()
                    invariant
                        j <= file.entries.len(),
                        entries(all) =~= first + entries(file.entries).take(j as int),
                    decreases file.entries.len() - j,
                {
                    let ghost b = entries(all);
                    all.push(file.entries[j].clone());
                    proof {
                        assert(entries(all) =~= b.push(entries(file.entries)[j as int]));
                        assert(entries(file.entries).take(j + 1) =~= entries(file.entries).take(
                            j as int,
                        ).push(entries(file.entries)[j as int]));
                    }
                    j = j + 1;
                }
                assert(entries(file.entries).take(file.entries@.len() as int) =~= entries(
                    file.entries,
                ));
            },
            None => {},
        }
        assert(entries(all) =~= self.stored().curated_entries(Impact::High) + self.stored().curated_entries(
            Impact::Medium,
        ));
        Ok(answer_query(&all, q))
    }
}

} // verus!
