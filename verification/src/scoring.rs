//! Relevance scoring of entries against a curation context, confidence from
//! curation status, and deduplication by slug.
//!
//! Scores are in millionths: quality counts for half, impact for three
//! tenths, and the context adds a boost of at most two tenths (one tenth
//! when the context is empty).
use vstd::prelude::*;

use crate::query::summary_text;
use crate::text::{concat_texts, contains, is_substring, lowercase, same_text, to_lowercase};
use crate::types::{
    entries, texts, CurationContext, CurationStatus, EntryModel, Impact, KbEntry, Timestamp,
    SCORE_ONE,
};

verus! {

/// The value of a [`CurationContext`].
pub struct CurationContextModel {
    pub codebase_keywords: Seq<Seq<char>>,
    pub integration_types: Seq<Seq<char>>,
    pub protocol_categories: Seq<Seq<char>>,
}

impl View for CurationContext {
    type V = CurationContextModel;

    open spec fn view(&self) -> CurationContextModel {
        CurationContextModel {
            codebase_keywords: texts(self.codebase_keywords),
            integration_types: texts(self.integration_types),
            protocol_categories: texts(self.protocol_categories),
        }
    }
}

/// The score of one kind of context match (0.067 of the scale).
pub const MATCH_SCORE: u64 = 67_000;

/// The boost when the context says nothing (0.1).
pub const EMPTY_CONTEXT_BOOST: u64 = 100_000;

/// The largest context boost (0.2).
pub const MAX_CONTEXT_BOOST: u64 = 200_000;

// ---------------------------------------------------------------------------
// Specification
// ---------------------------------------------------------------------------
/// The context has no keywords, integration types or categories.
pub open spec fn context_empty(ctx: CurationContextModel) -> bool {
    ctx.codebase_keywords.len() == 0 && ctx.integration_types.len() == 0
        && ctx.protocol_categories.len() == 0
}

/// A tag matches an integration type: one contains the other, both lowercased.
pub open spec fn tag_matches(tag: Seq<char>, integrations: Seq<Seq<char>>) -> bool {
    exists|i: int|
        0 <= i < integrations.len() && (is_substring(lowercase(tag), lowercase(#[trigger] integrations[i]))
            || is_substring(lowercase(integrations[i]), lowercase(tag)))
}

/// The number of entry tags that match some integration type.
pub open spec fn tag_hits(tags: Seq<Seq<char>>, integrations: Seq<Seq<char>>) -> nat {
    tags.filter(|t: Seq<char>| tag_matches(t, integrations)).len()
}

/// `hits` out of `total` times the score of a match (0 when `total` is 0).
pub open spec fn ratio_score(hits: nat, total: nat) -> int {
    if total == 0 {
        0
    } else {
        (hits * MATCH_SCORE) as int / total as int
    }
}

/// The tag overlap score: the share of entry tags matching an integration
/// type, times 0.067; 0 when either list is empty.
pub open spec fn tag_overlap(tags: Seq<Seq<char>>, integrations: Seq<Seq<char>>) -> int {
    if integrations.len() == 0 || tags.len() == 0 {
        0
    } else {
        ratio_score(tag_hits(tags, integrations), tags.len())
    }
}

/// The category score: 0.067 when the entry category equals some protocol
/// category, both lowercased; 0 otherwise.
pub open spec fn category_score(category: Seq<char>, categories: Seq<Seq<char>>) -> int {
    if exists|j: int| 0 <= j < categories.len() && lowercase(#[trigger] categories[j]) == lowercase(category) {
        MATCH_SCORE as int
    } else {
        0
    }
}

/// The text searched for keywords: the lowercased title, a space, and the
/// lowercased summary.
pub open spec fn searchable(e: EntryModel) -> Seq<char> {
    lowercase(e.title) + " "@ + lowercase(summary_text(e))
}

/// The number of keywords that, lowercased, occur in the searchable text.
pub open spec fn keyword_hits(e: EntryModel, keywords: Seq<Seq<char>>) -> nat {
    keywords.filter(|k: Seq<char>| is_substring(lowercase(k), searchable(e))).len()
}

/// The keyword score: the share of keywords found, times 0.067.
pub open spec fn keyword_overlap(e: EntryModel, keywords: Seq<Seq<char>>) -> int {
    ratio_score(keyword_hits(e, keywords), keywords.len())
}

/// The context boost: 0.1 for an empty context, else the sum of the three
/// scores, at most 0.2.
pub open spec fn context_boost(e: EntryModel, ctx: CurationContextModel) -> int {
    if context_empty(ctx) {
        EMPTY_CONTEXT_BOOST as int
    } else {
        let sum = tag_overlap(e.tags, ctx.integration_types) + category_score(
            e.category,
            ctx.protocol_categories,
        ) + keyword_overlap(e, ctx.codebase_keywords);
        if sum > MAX_CONTEXT_BOOST {
            MAX_CONTEXT_BOOST as int
        } else {
            sum
        }
    }
}

/// Quality over five points, clamped to `0..=1`.
pub open spec fn quality_norm(quality: i64) -> int {
    if quality <= 0 {
        0
    } else if quality / 5 > SCORE_ONE {
        SCORE_ONE as int
    } else {
        quality / 5
    }
}

/// Impact rank over two.
pub open spec fn impact_norm(impact: Impact) -> int {
    match impact {
        Impact::High => SCORE_ONE as int,
        Impact::Medium => (SCORE_ONE / 2) as int,
    }
}

/// The relevance of an entry: half its normalized quality, three tenths of
/// its normalized impact, plus the context boost, at most 1.
pub open spec fn relevance(e: EntryModel, ctx: CurationContextModel) -> int {
    let sum = quality_norm(e.quality_score) / 2 + impact_norm(e.impact) * 3 / 10 + context_boost(e, ctx);
    if sum > SCORE_ONE {
        SCORE_ONE as int
    } else {
        sum
    }
}

/// A relevance lies between 0 and 1.
pub proof fn lemma_relevance_bounded(e: EntryModel, ctx: CurationContextModel)
    ensures
        0 <= relevance(e, ctx) <= SCORE_ONE,
{
    assert(tag_overlap(e.tags, ctx.integration_types) >= 0) by (nonlinear_arith)
        requires
            tag_overlap(e.tags, ctx.integration_types) == (if ctx.integration_types.len() == 0
                || e.tags.len() == 0 {
                0
            } else {
                ratio_score(tag_hits(e.tags, ctx.integration_types), e.tags.len())
            }),
            forall|h: nat, t: nat| #[trigger] ratio_score(h, t) == (if t == 0 {
                0
            } else {
                (h * MATCH_SCORE) as int / t as int
            }),
    ;
    assert(keyword_overlap(e, ctx.codebase_keywords) >= 0) by (nonlinear_arith)
        requires
            keyword_overlap(e, ctx.codebase_keywords) == ratio_score(
                keyword_hits(e, ctx.codebase_keywords),
                ctx.codebase_keywords.len(),
            ),
            forall|h: nat, t: nat| #[trigger] ratio_score(h, t) == (if t == 0 {
                0
            } else {
                (h * MATCH_SCORE) as int / t as int
            }),
    ;
}

/// The confidence that a curation status gives: 0.95 for critical, 0.8 for
/// useful, 0.7 of the relevance for unreviewed, 0 for noise.
pub open spec fn confidence_for(curation: CurationStatus, relevance: u64) -> u64 {
    match curation {
        CurationStatus::Critical => 950_000,
        CurationStatus::Useful => 800_000,
        CurationStatus::Unreviewed => ((relevance * 7) / 10) as u64,
        CurationStatus::Noise => 0,
    }
}

/// An entry after scoring at `now`.
pub open spec fn scored(e: EntryModel, ctx: CurationContextModel, now: Timestamp) -> EntryModel {
    let r = relevance(e, ctx) as u64;
    EntryModel {
        relevance_score: r,
        confidence: confidence_for(e.curation, r),
        last_curated_at: Some(now),
        ..e
    }
}

// ---------------------------------------------------------------------------
// Executable scoring
// ---------------------------------------------------------------------------
/// Whether the context has no keywords, integration types or categories.
pub fn context_is_empty(ctx: &CurationContext) -> (r: bool)
    ensures
        r == context_empty(ctx@),
{
    ctx.codebase_keywords.len() == 0 && ctx.integration_types.len() == 0
        && ctx.protocol_categories.len() == 0
}

fn ratio(hits: usize, total: usize) -> (r: u64)
    requires
        hits <= total,
    ensures
        r == ratio_score(hits as nat, total as nat),
        r <= MATCH_SCORE,
{
    if total == 0 {
        0
    } else {
        let x: u128 = (hits as u128) * (MATCH_SCORE as u128);
        proof {
            assert((hits as u128) * (MATCH_SCORE as u128) <= (total as u128) * (MATCH_SCORE as u128))
                by (nonlinear_arith)
                requires
                    hits <= total,
            ;
            assert(x / (total as u128) <= MATCH_SCORE) by (nonlinear_arith)
                requires
                    x <= (total as u128) * (MATCH_SCORE as u128),
                    total > 0,
            ;
        }
        (x / (total as u128)) as u64
    }
}

/// Whether a tag matches some integration type.
fn tag_matches_any(tag: &str, integrations: &Vec<String>) -> (r: bool)
    ensures
        r == tag_matches(tag@, texts(*integrations)),
{
    let t = to_lowercase(tag);
    let mut i: usize = 0;
    while i < integrations.len()
        invariant
            i <= integrations.len(),
            t@ == lowercase(tag@),
            forall|k: int|
                0 <= k < i ==> !(is_substring(lowercase(tag@), lowercase(#[trigger] texts(*integrations)[k]))
                    || is_substring(lowercase(texts(*integrations)[k]), lowercase(tag@))),
        decreases integrations.len() - i,
    {
        let x = to_lowercase(integrations[i].as_str());
        if contains(x.as_str(), t.as_str()) || contains(t.as_str(), x.as_str()) {
            assert(texts(*integrations)[i as int] == integrations@[i as int]@);
            return true;
        }
        i = i + 1;
    }
    false
}

/// The tag overlap score of an entry's tags against the integration types.
pub fn tag_overlap_score(entry_tags: &Vec<String>, integration_types: &Vec<String>) -> (r: u64)
    ensures
        r == tag_overlap(texts(*entry_tags), texts(*integration_types)),
        r <= MATCH_SCORE,
{
    if integration_types.len() == 0 || entry_tags.len() == 0 {
        return 0;
    }
    let ghost ts = texts(*entry_tags);
    let ghost pred = |t: Seq<char>| tag_matches(t, texts(*integration_types));
    let mut hits: usize = 0;
    let mut i: usize = 0;
    while i < entry_tags.len()
        invariant
            i <= entry_tags.len(),
            ts == texts(*entry_tags),
            pred == (|t: Seq<char>| tag_matches(t, texts(*integration_types))),
            hits == ts.take(i as int).filter(pred).len(),
            hits <= i,
        decreases entry_tags.len() - i,
    {
        proof {
            assert(ts.take(i + 1) =~= ts.take(i as int).push(ts[i as int]));
            crate::raw::lemma_filter_push(ts.take(i as int), ts[i as int], pred);
        }
        if tag_matches_any(entry_tags[i].as_str(), integration_types) {
            hits = hits + 1;
        }
        i = i + 1;
    }
    assert(ts.take(entry_tags@.len() as int) =~= ts);
    ratio(hits, entry_tags.len())
}

/// The category score of an entry category against the protocol categories.
pub fn category_match_score(entry_category: &str, protocol_categories: &Vec<String>) -> (r: u64)
    ensures
        r == category_score(entry_category@, texts(*protocol_categories)),
{
    if protocol_categories.len() == 0 {
        return 0;
    }
    let cat_lower = to_lowercase(entry_category);
    let mut j: usize = 0;
    while j < protocol_categories.len()
        invariant
            j <= protocol_categories.len(),
            cat_lower@ == lowercase(entry_category@),
            forall|k: int|
                0 <= k < j ==> lowercase(#[trigger] texts(*protocol_categories)[k]) != lowercase(
                    entry_category@,
                ),
        decreases protocol_categories.len() - j,
    {
        let c = to_lowercase(protocol_categories[j].as_str());
        if same_text(c.as_str(), cat_lower.as_str()) {
            assert(lowercase(texts(*protocol_categories)[j as int]) == lowercase(entry_category@));
            return MATCH_SCORE;
        }
        j = j + 1;
    }
    0
}

/// The keyword score of an entry against the codebase keywords.
pub fn keyword_overlap_score(entry: &KbEntry, keywords: &Vec<String>) -> (r: u64)
    ensures
        r == keyword_overlap(entry@, texts(*keywords)),
        r <= MATCH_SCORE,
{
    if keywords.len() == 0 {
        return 0;
    }
    let title = to_lowercase(entry.title.as_str());
    let summary = match &entry.summary {
        Some(s) => to_lowercase(s.as_str()),
        None => to_lowercase(""),
    };
    proof {
        if entry.summary is None {
            reveal_strlit("");
            assert(""@ =~= seq![]);
        }
    }
    let with_space = concat_texts(title.as_str(), " ");
    let text = concat_texts(with_space.as_str(), summary.as_str());
    assert(text@ == searchable(entry@));
    let ghost ks = texts(*keywords);
    let ghost pred = |k: Seq<char>| is_substring(lowercase(k), searchable(entry@));
    let mut hits: usize = 0;
    let mut i: usize = 0;
    while i < keywords.len()
        invariant
            i <= keywords.len(),
            ks == texts(*keywords),
            text@ == searchable(entry@),
            pred == (|k: Seq<char>| is_substring(lowercase(k), searchable(entry@))),
            hits == ks.take(i as int).filter(pred).len(),
            hits <= i,
        decreases keywords.len() - i,
    {
        proof {
            assert(ks.take(i + 1) =~= ks.take(i as int).push(ks[i as int]));
            crate::raw::lemma_filter_push(ks.take(i as int), ks[i as int], pred);
        }
        let kw = to_lowercase(keywords[i].as_str());
        if contains(text.as_str(), kw.as_str()) {
            hits = hits + 1;
        }
        i = i + 1;
    }
    assert(ks.take(keywords@.len() as int) =~= ks);
    ratio(hits, keywords.len())
}

/// The confidence that a curation status gives an entry of this relevance.
pub fn confidence_from_curation(curation: &CurationStatus, relevance: u64) -> (r: u64)
    ensures
        r == confidence_for(*curation, relevance),
{
    match curation {
        CurationStatus::Critical => 950_000,
        CurationStatus::Useful => 800_000,
        CurationStatus::Unreviewed => {
            let q = relevance / 10;
            let m = relevance % 10;
            proof {
                assert(relevance == q * 10 + m);
                assert((relevance * 7) / 10 == q * 7 + (m * 7) / 10) by (nonlinear_arith)
                    requires
                        relevance == q * 10 + m,
                        0 <= m < 10,
                ;
            }
            q * 7 + (m * 7) / 10
        },
        CurationStatus::Noise => 0,
    }
}

/// The relevance of an entry against a context.
pub fn relevance_of(entry: &KbEntry, context: &CurationContext) -> (r: u64)
    ensures
        r == relevance(entry@, context@),
{
    let q = entry.quality_score;
    let quality: u64 = if q <= 0 {
        0
    } else if (q as u64) / 5 > SCORE_ONE {
        SCORE_ONE
    } else {
        (q as u64) / 5
    };
    let impact: u64 = match entry.impact {
        Impact::High => SCORE_ONE,
        Impact::Medium => SCORE_ONE / 2,
    };
    let base = quality / 2 + impact * 3 / 10;
    let boost: u64 = if context_is_empty(context) {
        EMPTY_CONTEXT_BOOST
    } else {
        let tag = tag_overlap_score(&entry.tags, &context.integration_types);
        let category = category_match_score(entry.category.as_str(), &context.protocol_categories);
        let keyword = keyword_overlap_score(entry, &context.codebase_keywords);
        let sum = tag + category + keyword;
        if sum > MAX_CONTEXT_BOOST {
            MAX_CONTEXT_BOOST
        } else {
            sum
        }
    };
    let sum = base + boost;
    if sum > SCORE_ONE {
        SCORE_ONE
    } else {
        sum
    }
}

/// Scores an entry at `now`: its relevance, its confidence, and the time of
/// curation.
pub fn score_entry(entry: &mut KbEntry, context: &CurationContext, now: Timestamp)
    ensures
        final(entry)@ == scored(old(entry)@, context@, now),
{
    let r = relevance_of(entry, context);
    entry.relevance_score = r;
    entry.confidence = confidence_from_curation(&entry.curation, r);
    entry.last_curated_at = Some(now);
}

// ---------------------------------------------------------------------------
// Deduplication
// ---------------------------------------------------------------------------
/// The position of the entry with this slug, or -1.
pub open spec fn slug_position(es: Seq<EntryModel>, slug: Seq<char>) -> int
    decreases es.len(),
{
    if es.len() == 0 {
        -1
    } else if es.last().slug == slug {
        es.len() - 1
    } else {
        slug_position(es.drop_last(), slug)
    }
}

/// One entry per slug: the first seen among those of greatest quality, at
/// the place where the slug was first seen.
pub open spec fn deduplicated(es: Seq<EntryModel>) -> Seq<EntryModel>
    decreases es.len(),
{
    if es.len() == 0 {
        seq![]
    } else {
        let d = deduplicated(es.drop_last());
        let x = es.last();
        let p = slug_position(d, x.slug);
        if p < 0 {
            d.push(x)
        } else if x.quality_score > d[p].quality_score {
            d.update(p, x)
        } else {
            d
        }
    }
}

pub(crate) proof fn lemma_slug_position(es: Seq<EntryModel>, slug: Seq<char>)
    ensures
        -1 <= slug_position(es, slug) < es.len(),
        slug_position(es, slug) >= 0 ==> es[slug_position(es, slug)].slug == slug,
        slug_position(es, slug) < 0 ==> forall|i: int| 0 <= i < es.len() ==> es[i].slug != slug,
    decreases es.len(),
{
    if es.len() > 0 {
        let d = es.drop_last();
        lemma_slug_position(d, slug);
        assert(forall|i: int| 0 <= i < d.len() ==> d[i] == es[i]);
    }
}

fn find_slug(es: &Vec<KbEntry>, slug: &str) -> (r: Option<usize>)
    requires
        slugs_distinct(entries(*es)),
    ensures
        match r {
            Some(i) => i < es@.len() && slug_position(entries(*es), slug@) == i,
            None => slug_position(entries(*es), slug@) == -1,
        },
{
    let mut i: usize = 0;
    while i < es.len()
        invariant
            i <= es.len(),
            slugs_distinct(entries(*es)),
            forall|k: int| 0 <= k < i ==> (#[trigger] es@[k]).slug@ != slug@,
        decreases es.len() - i,
    {
        if same_text(es[i].slug.as_str(), slug) {
            proof {
                lemma_slug_position(entries(*es), slug@);
                let p = slug_position(entries(*es), slug@);
                assert(entries(*es)[i as int].slug == slug@);
                if p != i {
                    assert(entries(*es)[p].slug == entries(*es)[i as int].slug);
                }
            }
            return Some(i);
        }
        i = i + 1;
    }
    proof {
        lemma_slug_position(entries(*es), slug@);
        let p = slug_position(entries(*es), slug@);
        if p >= 0 {
            assert(entries(*es)[p].slug == es@[p].slug@);
        }
    }
    None
}

/// The slugs of a list of entries are distinct.
pub open spec fn slugs_distinct(es: Seq<EntryModel>) -> bool {
    forall|i: int, j: int| 0 <= i < es.len() && 0 <= j < es.len() && i != j ==> #[trigger] es[i].slug != #[trigger] es[j].slug
}

/// Keeps one entry per slug: the one of greatest quality (the first seen
/// among equals), where the slug was first seen.
pub fn deduplicate(es: Vec<KbEntry>) -> (r: Vec<KbEntry>)
    ensures
        entries(r) == deduplicated(entries(es)),
        slugs_distinct(entries(r)),
{
    let ghost all = entries(es);
    let mut r: Vec<KbEntry> = Vec::new();
    let mut i: usize = 0;
    while i < es.len()
        invariant
            i <= es.len(),
            all == entries(es),
            entries(r) == deduplicated(all.take(i as int)),
            slugs_distinct(entries(r)),
        decreases es.len() - i,
    {
        proof {
            assert(all.take(i + 1).drop_last() =~= all.take(i as int));
            assert(all.take(i + 1).last() == all[i as int]);
        }
        let ghost before = entries(r);
        let e = es[i].clone();
        match find_slug(&r, e.slug.as_str()) {
            None => {
                proof {
                    lemma_slug_position(before, e@.slug);
                }
                r.push(e);
                proof {
                    assert(entries(r) =~= before.push(all[i as int]));
                    assert forall|a: int, b: int|
                        0 <= a < entries(r).len() && 0 <= b < entries(r).len() && a != b implies #[trigger] entries(
                        r,
                    )[a].slug != #[trigger] entries(r)[b].slug by {
                        if a < before.len() && b < before.len() {
                            assert(before[a].slug != before[b].slug);
                        }
                    }
                }
            },
            Some(p) => {
                if e.quality_score > r[p].quality_score {
                    proof {
                        lemma_slug_position(before, e@.slug);
                    }
                    r.set(p, e);
                    proof {
                        assert(entries(r) =~= before.update(p as int, all[i as int]));
                        assert forall|a: int, b: int|
                            0 <= a < entries(r).len() && 0 <= b < entries(r).len() && a != b implies #[trigger] entries(
                            r,
                        )[a].slug != #[trigger] entries(r)[b].slug by {
                            assert(before[a].slug != before[b].slug);
                        }
                    }
                }
            },
        }
        i = i + 1;
    }
    assert(all.take(es@.len() as int) =~= all);
    r
}

} // verus!
