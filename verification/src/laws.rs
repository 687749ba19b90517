//! Properties of the knowledge base that relate several operations: what a
//! read gives back of a write, what a refresh or an eviction leaves, what a
//! curation pass keeps of earlier decisions, and how query answers are
//! ordered and cut.
use vstd::prelude::*;

use crate::store::{
    first_with_id, lemma_first_with_id, lemma_raw_position, lemma_seed_position, Located, raw_names_distinct, raw_position, seed_position,
    RawFileModel, SeedDir, SeedRecordModel, SlotModel, StoreModel,
};
use crate::fingerprint::fingerprint_of;
use crate::raw::{
    after_eviction, cached_at, converted_all, fresh_only, ingest_outcome, ingested,
    lemma_filter_push, FindingModel, IngestOutcome,
};
use crate::store::{parsed_envelopes, KbError};
use crate::curate::{
    after_pass, bucket_of, live_of, noise_of, placed, confirmed, confirmed_by_pipeline, curated, curated_bucket,
    curation_set, set_outcome, curation_key, last_with_id, lemma_pass_counts, pass_stats,
    feedback_run, feedback_step, processed, FeedbackModel, FeedbackRun,
};
use crate::order::{key_geq, lemma_reordered_contains, lemma_reordered_sorted, stable_order};
use crate::query::{
    answer, boost_key, boosted, curated_all, filtered, has_pipeline_context, passes, severity_key,
    QueryModel,
};
use crate::scoring::{
    confidence_for, deduplicated, lemma_slug_position, slug_position, slugs_distinct,
    CurationContextModel,
};
use crate::types::{
    ConfirmationModel, CuratedModel, CurationStatus, EntryModel, Pipeline, EnvelopeModel, Impact, ParamsModel, SeedModel,
    Timestamp,
};

verus! {

// ---------------------------------------------------------------------------
// Store: reads give back writes
// ---------------------------------------------------------------------------
/// Reading the raw file of a name after writing it gives back what was written.
pub proof fn law_raw_write_read(m: StoreModel, name: Seq<char>, envelope: Option<EnvelopeModel>)
    ensures
        m.with_raw(name, envelope).raw_file(name) == Some(RawFileModel { name, envelope }),
{
    let n = m.with_raw(name, envelope);
    let file = RawFileModel { name, envelope };
    lemma_raw_position(m.raw, name);
    lemma_raw_position(n.raw, name);
    let p = raw_position(m.raw, name);
    let q = raw_position(n.raw, name);
    if p >= 0 {
        assert(n.raw[p] == file);
        if q != p {
            assert(n.raw[q] == m.raw[q]);
        }
    } else {
        assert(n.raw.last() == file);
    }
}

/// Writing the raw file of one name leaves the raw file of any other name as
/// it was.
pub proof fn law_raw_write_other(
    m: StoreModel,
    name: Seq<char>,
    envelope: Option<EnvelopeModel>,
    other: Seq<char>,
)
    requires
        other != name,
    ensures
        m.with_raw(name, envelope).raw_file(other) == m.raw_file(other),
{
    let n = m.with_raw(name, envelope);
    lemma_raw_position(m.raw, other);
    lemma_raw_position(n.raw, other);
    lemma_raw_position(m.raw, name);
    let p = raw_position(m.raw, name);
    let a = raw_position(m.raw, other);
    let b = raw_position(n.raw, other);
    if p >= 0 {
        assert(n.raw.len() == m.raw.len());
        assert(forall|i: int| 0 <= i < m.raw.len() ==> n.raw[i].name == m.raw[i].name);
        if a >= 0 {
            assert(n.raw[a].name == other);
        }
        if b >= 0 {
            assert(m.raw[b].name == other);
        }
    } else {
        assert(n.raw.drop_last() =~= m.raw);
    }
}

/// After deleting the raw file of a name, there is no file of that name
/// (file names are distinct in a store).
pub proof fn law_raw_delete_read(m: StoreModel, name: Seq<char>)
    requires
        raw_names_distinct(m.raw),
    ensures
        m.without_raw(name).raw_file(name) is None,
{
    let n = m.without_raw(name);
    lemma_raw_position(m.raw, name);
    lemma_raw_position(n.raw, name);
    let p = raw_position(m.raw, name);
    let q = raw_position(n.raw, name);
    if p >= 0 && q >= 0 {
        let k = if q < p {
            q
        } else {
            q + 1
        };
        assert(n.raw[q] == m.raw[k]);
        assert(m.raw[k].name != m.raw[p].name);
    }
}

/// Deleting the raw file of one name leaves the raw file of any other name
/// as it was (file names are distinct in a store).
pub proof fn law_raw_delete_other(m: StoreModel, name: Seq<char>, other: Seq<char>)
    requires
        raw_names_distinct(m.raw),
        other != name,
    ensures
        m.without_raw(name).raw_file(other) == m.raw_file(other),
{
    let n = m.without_raw(name);
    lemma_raw_position(m.raw, name);
    lemma_raw_position(m.raw, other);
    lemma_raw_position(n.raw, other);
    let p = raw_position(m.raw, name);
    let a = raw_position(m.raw, other);
    let b = raw_position(n.raw, other);
    if p >= 0 {
        assert(forall|k: int| 0 <= k < n.raw.len() ==> n.raw[k] == m.raw[if k < p { k } else { k + 1 }]);
        if a >= 0 {
            assert(a != p);
            let a2 = if a < p { a } else { a - 1 };
            assert(n.raw[a2].name == other);
            assert(b >= 0);
        }
        if b >= 0 {
            let b2 = if b < p { b } else { b + 1 };
            assert(m.raw[b2].name == other);
            crate::store::lemma_raw_position_unique(m.raw, other, b2);
        }
    }
}

/// The envelope of a well-formed raw file is among the listed envelopes.
pub proof fn lemma_listed_envelope(raw: Seq<RawFileModel>, k: int)
    requires
        0 <= k < raw.len(),
        raw[k].envelope is Some,
    ensures
        crate::store::parsed_envelopes(raw).contains(raw[k].envelope->0),
    decreases raw.len(),
{
    let d = raw.drop_last();
    if k < raw.len() - 1 {
        assert(d[k] == raw[k]);
        lemma_listed_envelope(d, k);
        let e = raw[k].envelope->0;
        let pd = crate::store::parsed_envelopes(d);
        let j = choose|j: int| 0 <= j < pd.len() && pd[j] == e;
        assert(crate::store::parsed_envelopes(raw)[j] == e);
    } else {
        let pr = crate::store::parsed_envelopes(raw);
        assert(pr[pr.len() - 1] == raw[k].envelope->0);
    }
}

/// After writing an envelope, the listing of the raw cache holds it.
pub proof fn law_raw_write_listed(m: StoreModel, e: EnvelopeModel)
    ensures
        crate::store::parsed_envelopes(m.with_raw(e.fingerprint, Some(e)).raw).contains(e),
{
    let n = m.with_raw(e.fingerprint, Some(e));
    law_raw_write_read(m, e.fingerprint, Some(e));
    lemma_raw_position(n.raw, e.fingerprint);
    lemma_listed_envelope(n.raw, raw_position(n.raw, e.fingerprint));
}

/// Reading a curated severity file after writing it gives back what was
/// written, and the file of the other severity is unchanged.
pub proof fn law_curated_write_read(m: StoreModel, f: CuratedModel)
    ensures
        m.with_slot(f.impact, SlotModel::Present(f)).slot(f.impact) == SlotModel::Present(f),
        m.with_slot(f.impact, SlotModel::Present(f)).high == (if f.impact
            == crate::types::Impact::High {
            SlotModel::Present(f)
        } else {
            m.high
        }),
        m.with_slot(f.impact, SlotModel::Present(f)).medium == (if f.impact
            == crate::types::Impact::Medium {
            SlotModel::Present(f)
        } else {
            m.medium
        }),
{
}

/// Reading the seed file at a place after writing it gives back what was
/// written.
pub proof fn law_seed_write_read(m: StoreModel, dir: SeedDir, name: Seq<char>, seed: Option<SeedModel>)
    ensures
        ({
            let n = m.with_seed(dir, name, seed);
            let q = seed_position(n.seeds, dir, name);
            q >= 0 && n.seeds[q] == (SeedRecordModel { dir, name, seed })
        }),
{
    let n = m.with_seed(dir, name, seed);
    let rec = SeedRecordModel { dir, name, seed };
    lemma_seed_position(m.seeds, dir, name);
    lemma_seed_position(n.seeds, dir, name);
    let p = seed_position(m.seeds, dir, name);
    let q = seed_position(n.seeds, dir, name);
    if p >= 0 {
        assert(n.seeds[p] == rec);
        if q != p {
            assert(n.seeds[q] == m.seeds[q]);
        }
    } else {
        assert(n.seeds.last() == rec);
    }
}

/// The contents of a well-formed seed file are among the seeds read from
/// its directory.
pub proof fn lemma_listed_seed(seeds: Seq<SeedRecordModel>, k: int)
    requires
        0 <= k < seeds.len(),
        seeds[k].seed is Some,
    ensures
        crate::store::parsed_seeds_in(seeds, seeds[k].dir).contains(seeds[k].seed->0),
    decreases seeds.len(),
{
    let d = seeds.drop_last();
    let dir = seeds[k].dir;
    if k < seeds.len() - 1 {
        assert(d[k] == seeds[k]);
        lemma_listed_seed(d, k);
        let s = seeds[k].seed->0;
        let pd = crate::store::parsed_seeds_in(d, dir);
        let j = choose|j: int| 0 <= j < pd.len() && pd[j] == s;
        assert(crate::store::parsed_seeds_in(seeds, dir)[j] == s);
    } else {
        let ps = crate::store::parsed_seeds_in(seeds, dir);
        assert(ps[ps.len() - 1] == seeds[k].seed->0);
    }
}

/// After writing a seed file, reading all seeds gives its contents among them.
pub proof fn law_seed_write_listed(m: StoreModel, dir: SeedDir, name: Seq<char>, seed: SeedModel)
    ensures
        m.with_seed(dir, name, Some(seed)).all_seeds().contains(seed),
{
    let n = m.with_seed(dir, name, Some(seed));
    law_seed_write_read(m, dir, name, Some(seed));
    lemma_seed_position(n.seeds, dir, name);
    let q = seed_position(n.seeds, dir, name);
    lemma_listed_seed(n.seeds, q);
    let c = crate::store::parsed_seeds_in(n.seeds, SeedDir::Code);
    let de = crate::store::parsed_seeds_in(n.seeds, SeedDir::Design);
    let sh = crate::store::parsed_seeds_in(n.seeds, SeedDir::Shared);
    let ro = crate::store::parsed_seeds_in(n.seeds, SeedDir::Root);
    let all = n.all_seeds();
    assert(all == c + de + sh + ro);
    let own = crate::store::parsed_seeds_in(n.seeds, dir);
    let j = choose|j: int| 0 <= j < own.len() && own[j] == seed;
    match dir {
        SeedDir::Code => {
            assert(all[j] == seed);
        },
        SeedDir::Design => {
            assert(all[c.len() + j] == seed);
        },
        SeedDir::Shared => {
            assert(all[c.len() + de.len() + j] == seed);
        },
        SeedDir::Root => {
            assert(all[c.len() + de.len() + sh.len() + j] == seed);
        },
    }
}

// ---------------------------------------------------------------------------
// Raw cache: ingestion, refresh, eviction
// ---------------------------------------------------------------------------
/// After an ingestion at `now` succeeds, with a time-to-live that is not
/// negative as a signed number of seconds, the query is cached and fresh at
/// `now`.
pub proof fn law_ingest_then_cached(
    before: StoreModel,
    after: StoreModel,
    params: ParamsModel,
    fs: Seq<FindingModel>,
    ttl_secs: u64,
    now: Timestamp,
    r: Result<usize, KbError>,
)
    requires
        ingested(before, after, params, fs, ttl_secs, now, r),
        r is Ok,
        ttl_secs <= i64::MAX,
    ensures
        cached_at(after, fingerprint_of(params), now) == Some(true),
{
    match ingest_outcome(before, params, fs, ttl_secs, now) {
        IngestOutcome::Written(e) => {
            law_raw_write_read(before, e.fingerprint, Some(e));
        },
        _ => {},
    }
}

/// A second ingestion of the same query at the same instant ingests nothing
/// and changes nothing, whatever its findings.
pub proof fn law_ingest_twice(
    m0: StoreModel,
    m1: StoreModel,
    m2: StoreModel,
    params: ParamsModel,
    first: Seq<FindingModel>,
    second: Seq<FindingModel>,
    ttl_first: u64,
    ttl_second: u64,
    now: Timestamp,
    r1: Result<usize, KbError>,
    r2: Result<usize, KbError>,
)
    requires
        ingested(m0, m1, params, first, ttl_first, now, r1),
        r1 is Ok,
        ttl_first <= i64::MAX,
        ingested(m1, m2, params, second, ttl_second, now, r2),
    ensures
        r2 == Ok::<usize, KbError>(0),
        m2 == m1,
{
    law_ingest_then_cached(m0, m1, params, first, ttl_first, now, r1);
}

/// After invalidating a query, it is not cached, and the next ingestion of it
/// writes a new envelope with the findings of storable impact.
pub proof fn law_invalidate_then_ingest(
    m: StoreModel,
    params: ParamsModel,
    fs: Seq<FindingModel>,
    ttl_secs: u64,
    now: Timestamp,
)
    requires
        raw_names_distinct(m.raw),
    ensures
        cached_at(m.without_raw(fingerprint_of(params)), fingerprint_of(params), now) == Some(
            false,
        ),
        ingest_outcome(m.without_raw(fingerprint_of(params)), params, fs, ttl_secs, now)
            == IngestOutcome::Written(
            EnvelopeModel {
                fingerprint: fingerprint_of(params),
                query_params: params,
                fetched_at: now,
                ttl_secs,
                entries: converted_all(fs, now),
            },
        ),
{
    law_raw_delete_read(m, fingerprint_of(params));
}

/// A finding becomes an entry exactly when its impact is HIGH or MEDIUM (in
/// any case), and the entry carries the finding field for field.
pub proof fn law_converted_carries(f: FindingModel, now: Timestamp)
    ensures
        crate::raw::converted(f, now) matches Some(e) ==> crate::raw::carries_finding(e, f, now),
        crate::raw::converted(f, now) is None <==> (crate::text::uppercase(f.impact) != "HIGH"@
            && crate::text::uppercase(f.impact) != "MEDIUM"@),
{
    reveal_strlit("HIGH");
    reveal_strlit("MEDIUM");
    assert("HIGH"@.len() != "MEDIUM"@.len());
}

/// Every entry of an ingested envelope carries one of the findings, field
/// for field; every finding of storable impact is carried by one of them.
pub proof fn law_ingested_entries(fs: Seq<FindingModel>, now: Timestamp)
    ensures
        forall|k: int|
            0 <= k < converted_all(fs, now).len() ==> exists|j: int|
                0 <= j < fs.len() && crate::raw::carries_finding(
                    #[trigger] converted_all(fs, now)[k],
                    fs[j],
                    now,
                ),
        forall|j: int|
            0 <= j < fs.len() && #[trigger] crate::raw::converted(fs[j], now) is Some ==> converted_all(
                fs,
                now,
            ).contains(crate::raw::converted(fs[j], now)->0),
    decreases fs.len(),
{
    if fs.len() > 0 {
        let d = fs.drop_last();
        let x = fs.last();
        law_ingested_entries(d, now);
        law_converted_carries(x, now);
        let cd = converted_all(d, now);
        let c = converted_all(fs, now);
        assert forall|k: int| 0 <= k < c.len() implies exists|j: int|
            0 <= j < fs.len() && crate::raw::carries_finding(#[trigger] c[k], fs[j], now) by {
            if k < cd.len() {
                assert(c[k] == cd[k]);
                let j = choose|j: int| 0 <= j < d.len() && crate::raw::carries_finding(cd[k], d[j], now);
                assert(fs[j] == d[j]);
            } else {
                assert(fs[fs.len() - 1] == x);
            }
        }
        assert forall|j: int| 0 <= j < fs.len() && #[trigger] crate::raw::converted(fs[j], now) is Some implies c.contains(
            crate::raw::converted(fs[j], now)->0,
        ) by {
            if j < d.len() {
                assert(fs[j] == d[j]);
                let e = crate::raw::converted(fs[j], now)->0;
                let k = choose|k: int| 0 <= k < cd.len() && cd[k] == e;
                assert(c[k] == e);
            } else {
                assert(fs[j] == x);
                assert(c[cd.len() as int] == crate::raw::converted(x, now)->0);
            }
        }
    }
}

/// Each raw file is named by the fingerprint of its envelope.
pub open spec fn raw_names_match(raw: Seq<RawFileModel>) -> bool {
    forall|k: int|
        0 <= k < raw.len() && (#[trigger] raw[k]).envelope is Some ==> raw[k].envelope->0.fingerprint
            == raw[k].name
}

/// A raw file that an eviction at `now` keeps: a malformed one, or one whose
/// envelope has not expired.
pub open spec fn kept_at(f: RawFileModel, now: Timestamp) -> bool {
    !(f.envelope is Some && f.envelope->0.expired_at(now))
}

proof fn lemma_filter_empty<A>(s: Seq<A>, p: spec_fn(A) -> bool)
    requires
        s.len() == 0,
    ensures
        s.filter(p) == s,
{
    reveal_with_fuel(Seq::filter, 1);
}

/// Evicting the envelopes of the first `k` raw files removes exactly the
/// expired ones among those files.
proof fn lemma_eviction_prefix(m: StoreModel, now: Timestamp, k: int)
    requires
        raw_names_distinct(m.raw),
        raw_names_match(m.raw),
        0 <= k <= m.raw.len(),
    ensures
        after_eviction(m, parsed_envelopes(m.raw.take(k)), now).raw == m.raw.take(k).filter(
            |f: RawFileModel| kept_at(f, now),
        ) + m.raw.skip(k),
    decreases k,
{
    let keep = |f: RawFileModel| kept_at(f, now);
    if k == 0 {
        assert(m.raw.take(0) =~= seq![]);
        lemma_filter_empty(m.raw.take(0), keep);
        assert(m.raw.skip(0) =~= m.raw);
        assert(after_eviction(m, parsed_envelopes(m.raw.take(0)), now) == m);
        assert(m.raw.take(0).filter(keep) + m.raw.skip(0) =~= m.raw);
    } else {
        lemma_eviction_prefix(m, now, k - 1);
        let t = m.raw.take(k - 1);
        let x = m.raw[k - 1];
        let f = t.filter(keep);
        assert(m.raw.take(k) =~= t.push(x));
        assert(m.raw.take(k).drop_last() =~= t);
        lemma_filter_push(t, x, keep);
        let pt = parsed_envelopes(t);
        let before = after_eviction(m, pt, now);
        assert(before.raw == f + m.raw.skip(k - 1));
        match x.envelope {
            None => {
                assert(parsed_envelopes(m.raw.take(k)) =~= pt);
                assert(f + m.raw.skip(k - 1) =~= f.push(x) + m.raw.skip(k));
            },
            Some(e) => {
                let pk = parsed_envelopes(m.raw.take(k));
                assert(pk =~= pt.push(e));
                assert(pk.drop_last() =~= pt);
                if e.expired_at(now) {
                    assert(e.fingerprint == x.name);
                    let b = before.raw;
                    let at = f.len() as int;
                    assert(b[at] == x);
                    lemma_raw_position(b, x.name);
                    let q = raw_position(b, x.name);
                    if q != at {
                        assert(q > at);
                        assert(b[q] == m.raw[q - at + k - 1]);
                        assert(m.raw[q - at + k - 1].name != m.raw[k - 1].name);
                    }
                    assert(b.remove(at) =~= f + m.raw.skip(k));
                } else {
                    assert(f + m.raw.skip(k - 1) =~= f.push(x) + m.raw.skip(k));
                }
            },
        }
    }
}

/// The envelopes listed from the raw files an eviction keeps are the envelopes
/// not expired at `now`.
proof fn lemma_kept_envelopes(raw: Seq<RawFileModel>, now: Timestamp)
    ensures
        parsed_envelopes(raw.filter(|f: RawFileModel| kept_at(f, now))) == fresh_only(
            parsed_envelopes(raw),
            now,
        ),
    decreases raw.len(),
{
    let keep = |f: RawFileModel| kept_at(f, now);
    let fresh = |e: EnvelopeModel| !e.expired_at(now);
    if raw.len() == 0 {
        lemma_filter_empty(raw, keep);
        lemma_filter_empty(parsed_envelopes(raw), fresh);
    } else {
        let d = raw.drop_last();
        let x = raw.last();
        lemma_kept_envelopes(d, now);
        assert(raw =~= d.push(x));
        lemma_filter_push(d, x, keep);
        let fd = d.filter(keep);
        match x.envelope {
            None => {
                assert(fd.push(x).drop_last() =~= fd);
                assert(parsed_envelopes(fd.push(x)) =~= parsed_envelopes(fd));
                assert(parsed_envelopes(raw) =~= parsed_envelopes(d));
            },
            Some(e) => {
                assert(parsed_envelopes(raw) =~= parsed_envelopes(d).push(e));
                lemma_filter_push(parsed_envelopes(d), e, fresh);
                if !e.expired_at(now) {
                    assert(fd.push(x).drop_last() =~= fd);
                    assert(parsed_envelopes(fd.push(x)) =~= parsed_envelopes(fd).push(e));
                }
            },
        }
    }
}

/// Evicting expired envelopes at `now` leaves exactly the envelopes that have
/// not expired, in their order (for raw files named by the fingerprints of
/// their envelopes, as the raw cache writes them).
pub proof fn law_evict_keeps_fresh(m: StoreModel, now: Timestamp)
    requires
        raw_names_distinct(m.raw),
        raw_names_match(m.raw),
    ensures
        parsed_envelopes(after_eviction(m, parsed_envelopes(m.raw), now).raw) == fresh_only(
            parsed_envelopes(m.raw),
            now,
        ),
{
    lemma_eviction_prefix(m, now, m.raw.len() as int);
    assert(m.raw.take(m.raw.len() as int) =~= m.raw);
    assert(m.raw.skip(m.raw.len() as int) =~= seq![]);
    let keep = |f: RawFileModel| kept_at(f, now);
    assert(m.raw.filter(keep) + m.raw.skip(m.raw.len() as int) =~= m.raw.filter(keep));
    lemma_kept_envelopes(m.raw, now);
}

/// With no envelope expired at `now`, an eviction changes nothing.
proof fn lemma_nothing_to_evict(m: StoreModel, envs: Seq<EnvelopeModel>, now: Timestamp)
    requires
        forall|k: int| 0 <= k < envs.len() ==> !(#[trigger] envs[k]).expired_at(now),
    ensures
        after_eviction(m, envs, now) == m,
    decreases envs.len(),
{
    if envs.len() > 0 {
        let d = envs.drop_last();
        assert(forall|k: int| 0 <= k < d.len() ==> d[k] == envs[k]);
        lemma_nothing_to_evict(m, d, now);
        assert(!envs[envs.len() - 1].expired_at(now));
    }
}

/// A second eviction at the same instant finds nothing expired and changes
/// nothing.
pub proof fn law_evict_twice(m: StoreModel, now: Timestamp)
    requires
        raw_names_distinct(m.raw),
        raw_names_match(m.raw),
    ensures
        ({
            let after = after_eviction(m, parsed_envelopes(m.raw), now);
            &&& crate::raw::expired_count(parsed_envelopes(after.raw), now) == 0
            &&& after_eviction(after, parsed_envelopes(after.raw), now) == after
        }),
{
    let after = after_eviction(m, parsed_envelopes(m.raw), now);
    law_evict_keeps_fresh(m, now);
    let left = parsed_envelopes(after.raw);
    let fresh = |e: EnvelopeModel| !e.expired_at(now);
    let expired = |e: EnvelopeModel| e.expired_at(now);
    assert forall|k: int| 0 <= k < left.len() implies !(#[trigger] left[k]).expired_at(now) by {
        parsed_envelopes(m.raw).lemma_filter_pred(fresh, k);
    }
    assert forall|k: int| 0 <= k < left.len() implies !expired(#[trigger] left[k]) by {}
    left.lemma_all_neg_filter_empty(expired);
    lemma_nothing_to_evict(after, left, now);
}

// ---------------------------------------------------------------------------
// Curation passes
// ---------------------------------------------------------------------------
/// Each entry of a bucket is a processed entry of that impact, as a pass
/// writes it.
proof fn lemma_bucket_member(
    ps: Seq<EntryModel>,
    impact: Impact,
    ctx: CurationContextModel,
    now: Timestamp,
    i: int,
)
    requires
        0 <= i < bucket_of(ps, impact, ctx, now).len(),
    ensures
        exists|k: int|
            0 <= k < ps.len() && bucket_of(ps, impact, ctx, now)[i] == placed(
                #[trigger] ps[k],
                ctx,
                now,
            ) && ps[k].impact == impact,
    decreases ps.len(),
{
    let d = ps.drop_last();
    let bd = bucket_of(d, impact, ctx, now);
    if i < bd.len() {
        lemma_bucket_member(d, impact, ctx, now, i);
        let k = choose|k: int|
            0 <= k < d.len() && bd[i] == placed(#[trigger] d[k], ctx, now) && d[k].impact == impact;
        assert(d[k] == ps[k]);
    } else {
        let k = ps.len() - 1;
        assert(ps[k] == ps.last());
    }
}

/// Deduplication keeps no more entries than it is given.
proof fn lemma_deduplicated_len(es: Seq<EntryModel>)
    ensures
        deduplicated(es).len() <= es.len(),
    decreases es.len(),
{
    if es.len() > 0 {
        lemma_deduplicated_len(es.drop_last());
        lemma_slug_position(deduplicated(es.drop_last()), es.last().slug);
    }
}

/// After a curation pass, each entry of the file of an impact: has that
/// impact; came from an input entry of the same id and slug; carries the
/// curation status and auditor notes of its last earlier curated version
/// when there is one (so a noise decision is written back as noise and
/// holds in the next pass), and that version's pipeline confirmations when
/// it has any (else the input entry's); and, unless it is noise, was scored
/// at `now`,
/// with a relevance of at most 1 and the confidence its status gives.
pub proof fn law_curated_bucket_entries(
    es: Seq<EntryModel>,
    existing: Seq<EntryModel>,
    impact: Impact,
    ctx: CurationContextModel,
    now: Timestamp,
    i: int,
)
    requires
        0 <= i < curated_bucket(es, existing, impact, ctx, now).len(),
    ensures
        ({
            let x = curated_bucket(es, existing, impact, ctx, now)[i];
            &&& x.impact == impact
            &&& exists|k: int|
                0 <= k < deduplicated(es).len() && (#[trigger] deduplicated(es)[k]).id == x.id
                    && deduplicated(es)[k].slug == x.slug
            &&& (last_with_id(existing, x.id) matches Some(p) ==> x.curation == p.curation
                && x.auditor_notes == p.auditor_notes)
            &&& (last_with_id(existing, x.id) matches Some(p) ==> (p.confirmed_by.len() > 0
                ==> x.confirmed_by == p.confirmed_by))
            &&& ((last_with_id(existing, x.id) is None || last_with_id(existing, x.id)->0.confirmed_by.len() == 0)
                ==> exists|k: int|
                0 <= k < deduplicated(es).len() && (#[trigger] deduplicated(es)[k]).id == x.id
                    && x.confirmed_by == deduplicated(es)[k].confirmed_by)
            &&& (x.curation == CurationStatus::Noise && last_with_id(existing, x.id) is Some
                && last_with_id(existing, x.id)->0.last_curated_at is Some ==> x.last_curated_at
                == last_with_id(existing, x.id)->0.last_curated_at)
            &&& x.curation != CurationStatus::Noise ==> {
                &&& x.last_curated_at == Some(now)
                &&& x.relevance_score <= crate::types::SCORE_ONE
                &&& x.confidence == confidence_for(x.curation, x.relevance_score)
            }
        }),
{
    let ps = processed(es, existing);
    let b = bucket_of(ps, impact, ctx, now);
    let keys = b.map_values(|e: EntryModel| curation_key(e));
    lemma_reordered_sorted(b, keys);
    let j = stable_order(keys)[i];
    lemma_bucket_member(ps, impact, ctx, now, j);
    let k = choose|k: int|
        0 <= k < ps.len() && b[j] == placed(#[trigger] ps[k], ctx, now) && ps[k].impact == impact;
    let d = deduplicated(es);
    assert(ps[k].id == d[k].id);
    assert(ps[k].slug == d[k].slug);
    crate::scoring::lemma_relevance_bounded(ps[k], ctx);
}

/// A processed entry of the impact is in its bucket, as a pass writes it.
proof fn lemma_bucket_has(
    ps: Seq<EntryModel>,
    impact: Impact,
    ctx: CurationContextModel,
    now: Timestamp,
    k: int,
)
    requires
        0 <= k < ps.len(),
        ps[k].impact == impact,
    ensures
        bucket_of(ps, impact, ctx, now).contains(placed(ps[k], ctx, now)),
    decreases ps.len(),
{
    let d = ps.drop_last();
    let b = bucket_of(ps, impact, ctx, now);
    let bd = bucket_of(d, impact, ctx, now);
    if k < ps.len() - 1 {
        assert(d[k] == ps[k]);
        lemma_bucket_has(d, impact, ctx, now, k);
        let j = choose|j: int| 0 <= j < bd.len() && bd[j] == placed(ps[k], ctx, now);
        assert(b[j] == bd[j]);
    } else {
        assert(b[bd.len() as int] == placed(ps[k], ctx, now));
    }
}

/// After a curation pass, every deduplicated entry (with its earlier
/// curation restored) is in the file of its impact: a noise entry as it is,
/// any other scored at `now`.
pub proof fn law_curated_bucket_complete(
    es: Seq<EntryModel>,
    existing: Seq<EntryModel>,
    ctx: CurationContextModel,
    now: Timestamp,
    k: int,
)
    requires
        0 <= k < processed(es, existing).len(),
    ensures
        curated_bucket(es, existing, processed(es, existing)[k].impact, ctx, now).contains(
            placed(processed(es, existing)[k], ctx, now),
        ),
{
    let ps = processed(es, existing);
    let impact = ps[k].impact;
    let b = bucket_of(ps, impact, ctx, now);
    lemma_bucket_has(ps, impact, ctx, now, k);
    let j = choose|j: int| 0 <= j < b.len() && b[j] == placed(ps[k], ctx, now);
    lemma_reordered_contains(b, b.map_values(|e: EntryModel| curation_key(e)), j);
}

/// After a curation pass, each bucket is sorted: curation rank, then
/// relevance, then quality, none increasing along the bucket.
pub proof fn law_curated_bucket_sorted(
    es: Seq<EntryModel>,
    existing: Seq<EntryModel>,
    impact: Impact,
    ctx: CurationContextModel,
    now: Timestamp,
)
    ensures
        ({
            let b = curated_bucket(es, existing, impact, ctx, now);
            forall|i: int, j: int|
                0 <= i < j < b.len() ==> key_geq(
                    curation_key(#[trigger] b[i]),
                    curation_key(#[trigger] b[j]),
                )
        }),
{
    let ps = processed(es, existing);
    let bk = bucket_of(ps, impact, ctx, now);
    let keys = bk.map_values(|e: EntryModel| curation_key(e));
    lemma_reordered_sorted(bk, keys);
    let b = curated_bucket(es, existing, impact, ctx, now);
    let so = stable_order(keys);
    assert forall|i: int, j: int| 0 <= i < j < b.len() implies key_geq(
        curation_key(#[trigger] b[i]),
        curation_key(#[trigger] b[j]),
    ) by {
        assert(key_geq(keys[so[i]], keys[so[j]]));
    }
}

/// The statistics of a pass count every deduplicated entry exactly once: as
/// HIGH, as MEDIUM, or as skipped noise; and the two files together hold
/// every deduplicated entry.
pub proof fn law_pass_stats(
    es: Seq<EntryModel>,
    existing: Seq<EntryModel>,
    ctx: CurationContextModel,
    now: Timestamp,
)
    requires
        es.len() <= usize::MAX,
    ensures
        ({
            let st = pass_stats(es, existing, ctx, now);
            let ps = processed(es, existing);
            &&& st.total_processed == deduplicated(es).len()
            &&& st.total_processed == st.high_count + st.medium_count + st.noise_skipped
            &&& st.high_count == live_of(ps, Impact::High)
            &&& st.medium_count == live_of(ps, Impact::Medium)
            &&& st.noise_skipped == noise_of(ps)
            &&& curated_bucket(es, existing, Impact::High, ctx, now).len() + curated_bucket(
                es,
                existing,
                Impact::Medium,
                ctx,
                now,
            ).len() == deduplicated(es).len()
        }),
{
    let ps = processed(es, existing);
    lemma_deduplicated_len(es);
    lemma_pass_counts(ps, ctx, now);
    let h = bucket_of(ps, Impact::High, ctx, now);
    let m = bucket_of(ps, Impact::Medium, ctx, now);
    lemma_reordered_sorted(h, h.map_values(|e: EntryModel| curation_key(e)));
    lemma_reordered_sorted(m, m.map_values(|e: EntryModel| curation_key(e)));
}

/// Every input entry is represented after deduplication by an entry of the
/// same slug and at least its quality.
pub open spec fn slugs_covered(es: Seq<EntryModel>, d: Seq<EntryModel>) -> bool {
    forall|i: int|
        0 <= i < es.len() ==> exists|j: int|
            0 <= j < d.len() && (#[trigger] d[j]).slug == (#[trigger] es[i]).slug
                && d[j].quality_score >= es[i].quality_score
}

/// Every entry kept by deduplication is an input entry.
pub open spec fn drawn_from(d: Seq<EntryModel>, es: Seq<EntryModel>) -> bool {
    forall|j: int| 0 <= j < d.len() ==> exists|i: int| 0 <= i < es.len() && #[trigger] d[j] == #[trigger] es[i]
}

proof fn lemma_deduplicated_distinct(es: Seq<EntryModel>)
    ensures
        slugs_distinct(deduplicated(es)),
    decreases es.len(),
{
    if es.len() > 0 {
        let x = es.last();
        let d = deduplicated(es.drop_last());
        lemma_deduplicated_distinct(es.drop_last());
        lemma_slug_position(d, x.slug);
        let p = slug_position(d, x.slug);
        let r = deduplicated(es);
        if p < 0 {
            assert forall|a: int, b: int|
                0 <= a < r.len() && 0 <= b < r.len() && a != b implies #[trigger] r[a].slug
                != #[trigger] r[b].slug by {
                if a < d.len() && b < d.len() {
                    assert(d[a].slug != d[b].slug);
                }
            }
        } else if x.quality_score > d[p].quality_score {
            assert forall|a: int, b: int|
                0 <= a < r.len() && 0 <= b < r.len() && a != b implies #[trigger] r[a].slug
                != #[trigger] r[b].slug by {
                assert(d[a].slug != d[b].slug);
            }
        }
    }
}

proof fn lemma_deduplicated_covered(es: Seq<EntryModel>)
    ensures
        slugs_covered(es, deduplicated(es)),
    decreases es.len(),
{
    if es.len() > 0 {
        let t = es.drop_last();
        let x = es.last();
        let d = deduplicated(t);
        lemma_deduplicated_covered(t);
        lemma_slug_position(d, x.slug);
        let p = slug_position(d, x.slug);
        let r = deduplicated(es);
        assert forall|i: int| 0 <= i < es.len() implies exists|j: int|
            0 <= j < r.len() && (#[trigger] r[j]).slug == (#[trigger] es[i]).slug
                && r[j].quality_score >= es[i].quality_score by {
            if i < t.len() {
                assert(t[i] == es[i]);
                let j = choose|j: int|
                    0 <= j < d.len() && (#[trigger] d[j]).slug == (#[trigger] t[i]).slug
                        && d[j].quality_score >= t[i].quality_score;
                if p >= 0 && x.quality_score > d[p].quality_score && j == p {
                    assert(r[p].slug == es[i].slug);
                } else {
                    assert(r[j] == d[j]);
                }
            } else if p < 0 {
                assert(r[d.len() as int] == es[i]);
            } else if x.quality_score > d[p].quality_score {
                assert(r[p] == es[i]);
            } else {
                assert(r[p].slug == es[i].slug);
            }
        }
    }
}

proof fn lemma_deduplicated_drawn(es: Seq<EntryModel>)
    ensures
        drawn_from(deduplicated(es), es),
    decreases es.len(),
{
    if es.len() > 0 {
        let t = es.drop_last();
        let x = es.last();
        let d = deduplicated(t);
        lemma_deduplicated_drawn(t);
        lemma_slug_position(d, x.slug);
        let p = slug_position(d, x.slug);
        let r = deduplicated(es);
        assert forall|j: int| 0 <= j < r.len() implies exists|i: int|
            0 <= i < es.len() && #[trigger] r[j] == #[trigger] es[i] by {
            if (p < 0 && j == d.len()) || (p >= 0 && x.quality_score > d[p].quality_score && j == p) {
                assert(r[j] == es[es.len() - 1]);
            } else {
                let i = choose|i: int| 0 <= i < t.len() && #[trigger] d[j] == #[trigger] t[i];
                assert(t[i] == es[i]);
                assert(r[j] == d[j]);
            }
        }
    }
}

/// Deduplication keeps one entry per slug, each an input entry, and for each
/// slug one of the greatest quality.
pub proof fn law_deduplicated(es: Seq<EntryModel>)
    ensures
        slugs_distinct(deduplicated(es)),
        slugs_covered(es, deduplicated(es)),
        drawn_from(deduplicated(es), es),
{
    lemma_deduplicated_distinct(es);
    lemma_deduplicated_covered(es);
    lemma_deduplicated_drawn(es);
}

// ---------------------------------------------------------------------------
// Queries
// ---------------------------------------------------------------------------
/// Entries in severity order: no MEDIUM entry before a HIGH one.
pub open spec fn severity_ordered(s: Seq<EntryModel>) -> bool {
    forall|i: int, j: int|
        0 <= i < j < s.len() ==> (#[trigger] s[i]).impact.spec_rank() >= (#[trigger] s[j]).impact.spec_rank()
}

/// The keys a query ranks the matching entries by.
pub open spec fn rank_keys(q: QueryModel, f: Seq<EntryModel>) -> Seq<crate::order::SortKey> {
    match q.pipeline {
        Some(p) => f.map_values(|e: EntryModel| boost_key(e, p)),
        None => f.map_values(|e: EntryModel| severity_key(e)),
    }
}

/// The ranked matching entries are the matching entries reordered by the
/// query's keys.
proof fn lemma_ranked(q: QueryModel, all: Seq<EntryModel>)
    ensures
        crate::query::ranked(q, filtered(q, all)) == crate::order::reordered(
            filtered(q, all),
            rank_keys(q, filtered(q, all)),
        ),
        rank_keys(q, filtered(q, all)).len() == filtered(q, all).len(),
{
}

/// A query answer holds at most the budget of entries, each of them a
/// curated entry that passes the query's filters; it reports how many
/// entries matched and whether the budget cut some.
pub proof fn law_answer_filters_and_budget(q: QueryModel, all: Seq<EntryModel>)
    requires
        all.len() <= usize::MAX,
    ensures
        ({
            let a = answer(q, all);
            let f = filtered(q, all);
            &&& a.entries.len() == (if f.len() < q.max_entries {
                f.len() as int
            } else {
                q.max_entries as int
            })
            &&& a.total_available == f.len()
            &&& a.truncated == (f.len() > q.max_entries)
            &&& forall|i: int|
                0 <= i < a.entries.len() ==> passes(q, #[trigger] a.entries[i]) && all.contains(
                    a.entries[i],
                )
        }),
{
    let f = filtered(q, all);
    let pred = |e: EntryModel| passes(q, e);
    all.lemma_filter_len(pred);
    let a = answer(q, all);
    let keys = rank_keys(q, f);
    lemma_ranked(q, all);
    lemma_reordered_sorted(f, keys);
    let ranked = crate::query::ranked(q, f);
    assert forall|i: int| 0 <= i < ranked.len() implies passes(q, #[trigger] ranked[i]) && all.contains(
        ranked[i],
    ) by {
        let k = stable_order(keys)[i];
        assert(ranked[i] == f[k]);
        all.lemma_filter_pred(pred, k);
        assert(f.contains(f[k]));
        all.lemma_filter_contains_rev(pred, f[k]);
    }
    assert forall|i: int| 0 <= i < a.entries.len() implies passes(q, #[trigger] a.entries[i])
        && all.contains(a.entries[i]) by {
        assert(a.entries[i] == ranked[i]);
    }
}

/// A query answer is ranked by severity (HIGH before MEDIUM), then by
/// curation rank within each severity, whether or not a pipeline is named.
pub proof fn law_answer_severity_order(q: QueryModel, all: Seq<EntryModel>)
    ensures
        ({
            let a = answer(q, all).entries;
            &&& severity_ordered(a)
            &&& forall|i: int, j: int|
                0 <= i < j < a.len() && (#[trigger] a[i]).impact == (#[trigger] a[j]).impact ==> a[i].curation.spec_rank()
                    >= a[j].curation.spec_rank()
        }),
{
    match q.pipeline {
        Some(p) => {
            law_answer_pipeline_order(q, all, p);
        },
        None => {
            let f = filtered(q, all);
            let keys = f.map_values(|e: EntryModel| severity_key(e));
            lemma_reordered_sorted(f, keys);
            let so = stable_order(keys);
            let b = crate::query::by_severity(f);
            let a = answer(q, all).entries;
            assert forall|i: int, j: int| 0 <= i < j < a.len() implies (#[trigger] a[i]).impact.spec_rank()
                >= (#[trigger] a[j]).impact.spec_rank() && (a[i].impact == a[j].impact ==> a[i].curation.spec_rank()
                >= a[j].curation.spec_rank()) by {
                assert(a[i] == b[i] && a[j] == b[j]);
                assert(key_geq(keys[so[i]], keys[so[j]]));
            }
        },
    }
}

/// Naming a pipeline only reorders an answer: the totals are the same as
/// without a pipeline, and when the budget holds every matching entry, both
/// answers hold the same entries, as many of them.
pub proof fn law_pipeline_only_reorders(q: QueryModel, all: Seq<EntryModel>, p: Pipeline)
    requires
        q.pipeline is None,
    ensures
        ({
            let qp = QueryModel { pipeline: Some(p), ..q };
            let a = answer(q, all);
            let b = answer(qp, all);
            &&& b.total_available == a.total_available
            &&& b.truncated == a.truncated
            &&& b.entries.len() == a.entries.len()
            &&& filtered(q, all).len() <= q.max_entries ==> (forall|x: EntryModel|
                #[trigger] a.entries.contains(x) <==> b.entries.contains(x))
        }),
{
    let qp = QueryModel { pipeline: Some(p), ..q };
    let f = filtered(q, all);
    assert((|e: EntryModel| passes(qp, e)) =~= (|e: EntryModel| passes(q, e)));
    assert(filtered(qp, all) == f);
    let ka = rank_keys(q, f);
    let kb = rank_keys(qp, f);
    lemma_ranked(q, all);
    lemma_ranked(qp, all);
    lemma_reordered_sorted(f, ka);
    lemma_reordered_sorted(f, kb);
    let ra = crate::query::ranked(q, f);
    let rb = crate::query::ranked(qp, f);
    if f.len() <= q.max_entries {
        let a = answer(q, all).entries;
        let b = answer(qp, all).entries;
        assert(a =~= ra);
        assert(b =~= rb);
        assert forall|x: EntryModel| #[trigger] a.contains(x) implies b.contains(x) by {
            let i = choose|i: int| 0 <= i < a.len() && a[i] == x;
            let k = stable_order(ka)[i];
            lemma_reordered_contains(f, kb, k);
        }
        assert forall|x: EntryModel| #[trigger] b.contains(x) implies a.contains(x) by {
            let i = choose|i: int| 0 <= i < b.len() && b[i] == x;
            let k = stable_order(kb)[i];
            lemma_reordered_contains(f, ka, k);
        }
    }
}

/// For a pipeline, a query answer ranks by severity (HIGH before MEDIUM),
/// then by curation rank, then puts entries with context at the pipeline's
/// level before those without, then by relevance.
pub proof fn law_answer_pipeline_order(q: QueryModel, all: Seq<EntryModel>, p: Pipeline)
    requires
        q.pipeline == Some(p),
    ensures
        ({
            let a = answer(q, all).entries;
            &&& severity_ordered(a)
            &&& forall|i: int, j: int|
                0 <= i < j < a.len() && (#[trigger] a[i]).impact == (#[trigger] a[j]).impact ==> a[i].curation.spec_rank()
                    >= a[j].curation.spec_rank()
            &&& forall|i: int, j: int|
                0 <= i < j < a.len() && (#[trigger] a[i]).impact == (#[trigger] a[j]).impact
                    && a[i].curation == a[j].curation && has_pipeline_context(a[j], p)
                    ==> has_pipeline_context(a[i], p)
            &&& forall|i: int, j: int|
                0 <= i < j < a.len() && (#[trigger] a[i]).impact == (#[trigger] a[j]).impact
                    && a[i].curation == a[j].curation && has_pipeline_context(a[i], p)
                    == has_pipeline_context(a[j], p) ==> a[i].relevance_score >= a[j].relevance_score
        }),
{
    let f = filtered(q, all);
    crate::query::lemma_boosted_order(f, p);
    let b = boosted(f, p);
    let a = answer(q, all).entries;
    assert forall|i: int, j: int| 0 <= i < j < a.len() implies #[trigger] a[i] == b[i] && #[trigger] a[j]
        == b[j] by {}
    assert(crate::query::pipeline_ordered(b, p));
    assert forall|i: int, j: int| 0 <= i < j < a.len() implies (#[trigger] a[i]).impact.spec_rank()
        >= (#[trigger] a[j]).impact.spec_rank() by {
        assert(a[i] == b[i] && a[j] == b[j]);
    }
    assert forall|i: int, j: int|
        0 <= i < j < a.len() && (#[trigger] a[i]).impact == (#[trigger] a[j]).impact implies a[i].curation.spec_rank()
        >= a[j].curation.spec_rank() by {
        assert(a[i] == b[i] && a[j] == b[j]);
    }
    assert forall|i: int, j: int|
        0 <= i < j < a.len() && (#[trigger] a[i]).impact == (#[trigger] a[j]).impact && a[i].curation
            == a[j].curation && has_pipeline_context(a[j], p) implies has_pipeline_context(a[i], p) by {
        assert(a[i] == b[i] && a[j] == b[j]);
    }
    assert forall|i: int, j: int|
        0 <= i < j < a.len() && (#[trigger] a[i]).impact == (#[trigger] a[j]).impact && a[i].curation
            == a[j].curation && has_pipeline_context(a[i], p) == has_pipeline_context(a[j], p) implies a[i].relevance_score
        >= a[j].relevance_score by {
        assert(a[i] == b[i] && a[j] == b[j]);
    }
}

/// After a successful curation pass, the curated entries are in severity
/// order (so every query answer is too): the HIGH file holds only HIGH
/// entries and the MEDIUM file only MEDIUM ones.
pub proof fn law_curated_severity_order(
    before: StoreModel,
    after: StoreModel,
    es: Seq<EntryModel>,
    ctx: CurationContextModel,
    now: Timestamp,
    r: Result<crate::types::CurationStats, KbError>,
)
    requires
        curated(before, after, es, ctx, now, r),
        r is Ok,
    ensures
        curated_all(after) matches Some(all) && severity_ordered(all),
{
    let existing = curated_all(before)->0;
    let h = curated_bucket(es, existing, Impact::High, ctx, now);
    let m = curated_bucket(es, existing, Impact::Medium, ctx, now);
    assert(after == after_pass(before, es, existing, ctx, now));
    let all = h + m;
    assert(curated_all(after) == Some(all));
    assert forall|i: int, j: int| 0 <= i < j < all.len() implies (#[trigger] all[i]).impact.spec_rank()
        >= (#[trigger] all[j]).impact.spec_rank() by {
        if i < h.len() {
            law_curated_bucket_entries(es, existing, Impact::High, ctx, now, i);
        } else {
            law_curated_bucket_entries(es, existing, Impact::Medium, ctx, now, i - h.len());
        }
        if j < h.len() {
            law_curated_bucket_entries(es, existing, Impact::High, ctx, now, j);
        } else {
            law_curated_bucket_entries(es, existing, Impact::Medium, ctx, now, j - h.len());
        }
    }
}

// ---------------------------------------------------------------------------
// Curation updates and feedback
// ---------------------------------------------------------------------------
/// Each present curated file is stored in the slot of its own impact.
pub open spec fn files_in_place(m: StoreModel) -> bool {
    &&& (m.high matches SlotModel::Present(f) ==> f.impact == Impact::High)
    &&& (m.medium matches SlotModel::Present(f) ==> f.impact == Impact::Medium)
}

/// Replacing an entry by one of the same id keeps it the first of its id.
proof fn lemma_first_with_id_update(es: Seq<EntryModel>, id: Seq<char>, e: EntryModel)
    requires
        first_with_id(es, id) >= 0,
        e.id == id,
    ensures
        first_with_id(es.update(first_with_id(es, id), e), id) == first_with_id(es, id),
{
    let i = first_with_id(es, id);
    let n = es.update(i, e);
    lemma_first_with_id(es, id);
    lemma_first_with_id(n, id);
    let q = first_with_id(n, id);
    if q != i {
        if q < i && q >= 0 {
            assert(n[q] == es[q]);
        } else {
            assert(n[i].id == id);
        }
    }
}

/// Setting the curation of an entry changes that entry only, as
/// [`curation_set`] says, and it stays where it was found; it fails exactly
/// when the search meets a malformed curated file, and finds nothing exactly
/// when no curated file holds the id.
pub proof fn law_set_curation_read(
    m: StoreModel,
    id: Seq<char>,
    status: CurationStatus,
    notes: Option<Seq<char>>,
    now: Timestamp,
)
    requires
        files_in_place(m),
    ensures
        (m.locate(id) is Failed) == (set_outcome(m, id, status, notes, now) is None),
        m.locate(id) is Absent ==> set_outcome(m, id, status, notes, now) == Some((m, false)),
        m.locate(id) matches Located::At(impact, i) ==> (set_outcome(
            m,
            id,
            status,
            notes,
            now,
        ) matches Some((n, found)) && found && files_in_place(n) && n.locate(id) == Located::At(
            impact,
            i,
        ) && n.curated_entries(impact)[i] == curation_set(
            m.curated_entries(impact)[i],
            status,
            notes,
            now,
        )),
{
    match m.locate(id) {
        Located::At(impact, i) => {
            let es = m.curated_entries(impact);
            let e = curation_set(es[i], status, notes, now);
            lemma_first_with_id(es, id);
            lemma_first_with_id_update(es, id, e);
            let n = m.with_entry_replaced(impact, i, e);
            assert(n.curated_entries(impact) == es.update(i, e));
        },
        _ => {},
    }
}

/// Replacing a located entry by one of the same id keeps the files in
/// place and the entry where it was.
proof fn lemma_replace_located(m: StoreModel, id: Seq<char>, impact: Impact, i: int, e: EntryModel)
    requires
        files_in_place(m),
        m.locate(id) == Located::At(impact, i),
        e.id == id,
    ensures
        files_in_place(m.with_entry_replaced(impact, i, e)),
        m.with_entry_replaced(impact, i, e).locate(id) == Located::At(impact, i),
        m.with_entry_replaced(impact, i, e).curated_entries(impact) == m.curated_entries(impact).update(i, e),
{
    let es = m.curated_entries(impact);
    lemma_first_with_id(es, id);
    lemma_first_with_id_update(es, id, e);
}

/// The number of feedback items whose entry is found when their turn comes.
pub open spec fn found_count(m: StoreModel, items: Seq<FeedbackModel>, now: Timestamp) -> nat
    decreases items.len(),
{
    if items.len() == 0 {
        0
    } else {
        found_count(m, items.drop_last(), now) + if feedback_run(
            m,
            items.drop_last(),
            now,
        ).store.locate(items.last().entry_id) is At {
            1nat
        } else {
            0nat
        }
    }
}

/// A feedback run that does not fail counts the items whose entry was found
/// (unknown ids change nothing and are not counted).
pub proof fn law_feedback_count(m: StoreModel, items: Seq<FeedbackModel>, now: Timestamp)
    ensures
        !feedback_run(m, items, now).failed ==> feedback_run(m, items, now).updated == found_count(
            m,
            items,
            now,
        ),
        feedback_run(m, items, now).updated <= items.len(),
    decreases items.len(),
{
    if items.len() > 0 {
        law_feedback_count(m, items.drop_last(), now);
    }
}

/// Applying the same positive feedback with a pipeline twice: the second
/// run also updates the entry, keeps its status, and records no second
/// confirmation; the entry is confirmed by the pipeline once.
pub proof fn law_feedback_twice(
    m: StoreModel,
    item: FeedbackModel,
    first: Timestamp,
    second: Timestamp,
)
    requires
        files_in_place(m),
        m.locate(item.entry_id) is At,
        item.new_status.is_positive(),
        item.pipeline is Some,
    ensures
        ({
            let run1 = feedback_run(m, seq![item], first);
            let run2 = feedback_run(run1.store, seq![item], second);
            &&& !run1.failed && run1.updated == 1
            &&& !run2.failed && run2.updated == 1
            &&& run1.store.locate(item.entry_id) == m.locate(item.entry_id)
            &&& run2.store.locate(item.entry_id) == m.locate(item.entry_id)
            &&& m.locate(item.entry_id) matches Located::At(impact, i) && {
                let e0 = m.curated_entries(impact)[i];
                let e1 = run1.store.curated_entries(impact)[i];
                let e2 = run2.store.curated_entries(impact)[i];
                &&& e1.curation == item.new_status
                &&& e2.curation == item.new_status
                &&& e2.confirmed_by == e1.confirmed_by
                &&& confirmed_by_pipeline(e2.confirmed_by, item.pipeline->0)
                &&& (pipelines_distinct(e0.confirmed_by) ==> pipelines_distinct(e2.confirmed_by))
            }
        }),
{
    let id = item.entry_id;
    let items = seq![item];
    assert(items.drop_last() =~= Seq::<FeedbackModel>::empty());
    assert(items.last() == item);
    let (impact, i) = match m.locate(id) {
        Located::At(a, b) => (a, b),
        _ => (Impact::High, 0),
    };
    let p = item.pipeline->0;
    // First run.
    lemma_first_with_id(m.curated_entries(impact), id);
    let e0 = m.curated_entries(impact)[i];
    assert(e0.id == id);
    let s0 = curation_set(e0, item.new_status, item.reason, first);
    law_set_curation_read(m, id, item.new_status, item.reason, first);
    let m1 = m.with_entry_replaced(impact, i, s0);
    let c1 = ConfirmationModel { pipeline: p, confirmed_at: first, context: item.reason };
    let e1 = confirmed(m1.curated_entries(impact)[i], c1);
    lemma_replace_located(m, id, impact, i, s0);
    assert(m1.curated_entries(impact)[i] == s0);
    assert(e1.id == id);
    lemma_replace_located(m1, id, impact, i, e1);
    let st1 = m1.with_entry_replaced(impact, i, e1);
    law_confirmed(s0, c1, c1);
    assert(set_outcome(m, id, item.new_status, item.reason, first) == Some((m1, true)));
    assert(m1.locate(id) == Located::At(impact, i));
    let r0 = feedback_run(m, items.drop_last(), first);
    assert(r0 == FeedbackRun { store: m, updated: 0, failed: false });
    assert(feedback_run(m, items, first) == feedback_step(r0, item, first));
    assert(feedback_step(r0, item, first) == FeedbackRun { store: st1, updated: 1, failed: false });
    assert(feedback_run(m, items, first).store == st1);
    // Second run.
    let s1 = curation_set(e1, item.new_status, item.reason, second);
    law_set_curation_read(st1, id, item.new_status, item.reason, second);
    let m2 = st1.with_entry_replaced(impact, i, s1);
    lemma_replace_located(st1, id, impact, i, s1);
    let c2 = ConfirmationModel { pipeline: p, confirmed_at: second, context: item.reason };
    let e2 = confirmed(m2.curated_entries(impact)[i], c2);
    lemma_replace_located(m2, id, impact, i, e2);
    assert(e2 == s1);
    assert(set_outcome(st1, id, item.new_status, item.reason, second) == Some((m2, true)));
    assert(m2.locate(id) == Located::At(impact, i));
    let q0 = feedback_run(st1, items.drop_last(), second);
    assert(q0 == FeedbackRun { store: st1, updated: 0, failed: false });
    assert(feedback_run(st1, items, second) == feedback_step(q0, item, second));
    assert(feedback_step(q0, item, second) == FeedbackRun {
        store: m2.with_entry_replaced(impact, i, e2),
        updated: 1,
        failed: false,
    });
}

/// Setting the curation of an entry at `now` sets its status and the time
/// of curation, replaces its notes only when notes are given, sets the
/// confidence the status gives (0.95 critical, 0.8 useful, 0.7 of the
/// relevance unreviewed, 0 noise), and changes nothing else.
pub proof fn law_curation_set_fields(
    e: EntryModel,
    status: CurationStatus,
    notes: Option<Seq<char>>,
    now: Timestamp,
)
    ensures
        ({
            let x = curation_set(e, status, notes, now);
            &&& x.curation == status
            &&& x.last_curated_at == Some(now)
            &&& x.auditor_notes == (if notes is Some {
                notes
            } else {
                e.auditor_notes
            })
            &&& x.confidence == match status {
                CurationStatus::Critical => 950_000,
                CurationStatus::Useful => 800_000,
                CurationStatus::Unreviewed => (e.relevance_score * 7 / 10) as u64,
                CurationStatus::Noise => 0u64,
            }
            &&& (EntryModel {
                curation: e.curation,
                last_curated_at: e.last_curated_at,
                auditor_notes: e.auditor_notes,
                confidence: e.confidence,
                ..x
            }) == e
        }),
{
}

/// The confirmations of a list come from distinct pipelines.
pub open spec fn pipelines_distinct(cs: Seq<ConfirmationModel>) -> bool {
    forall|i: int, j: int|
        0 <= i < cs.len() && 0 <= j < cs.len() && i != j ==> (#[trigger] cs[i]).pipeline
            != (#[trigger] cs[j]).pipeline
}

/// Recording a confirmation makes the entry confirmed by its pipeline; it
/// keeps every earlier confirmation in its place and changes nothing else of
/// the entry; it adds exactly one confirmation, `c`, at the end, unless the
/// pipeline had already confirmed, when it adds none; it keeps the
/// confirmations from distinct pipelines; and a second confirmation by the
/// same pipeline changes nothing.
pub proof fn law_confirmed(e: EntryModel, c: ConfirmationModel, again: ConfirmationModel)
    requires
        again.pipeline == c.pipeline,
    ensures
        confirmed_by_pipeline(confirmed(e, c).confirmed_by, c.pipeline),
        forall|k: int|
            0 <= k < e.confirmed_by.len() ==> #[trigger] confirmed(e, c).confirmed_by[k]
                == e.confirmed_by[k],
        confirmed(e, c).confirmed_by.len() == e.confirmed_by.len() + if confirmed_by_pipeline(
            e.confirmed_by,
            c.pipeline,
        ) {
            0int
        } else {
            1int
        },
        !confirmed_by_pipeline(e.confirmed_by, c.pipeline) ==> confirmed(e, c).confirmed_by[e.confirmed_by.len() as int] == c,
        (EntryModel { confirmed_by: e.confirmed_by, ..confirmed(e, c) }) == e,
        pipelines_distinct(e.confirmed_by) ==> pipelines_distinct(confirmed(e, c).confirmed_by),
        confirmed(confirmed(e, c), again) == confirmed(e, c),
{
    let r = confirmed(e, c);
    if !confirmed_by_pipeline(e.confirmed_by, c.pipeline) {
        let cs = e.confirmed_by.push(c);
        assert(cs[cs.len() - 1] == c);
        if pipelines_distinct(e.confirmed_by) {
            assert forall|i: int, j: int|
                0 <= i < cs.len() && 0 <= j < cs.len() && i != j implies (#[trigger] cs[i]).pipeline
                != (#[trigger] cs[j]).pipeline by {
                if i < e.confirmed_by.len() && j < e.confirmed_by.len() {
                    assert(cs[i] == e.confirmed_by[i] && cs[j] == e.confirmed_by[j]);
                } else if i < e.confirmed_by.len() {
                    assert(cs[i] == e.confirmed_by[i]);
                } else if j < e.confirmed_by.len() {
                    assert(cs[j] == e.confirmed_by[j]);
                }
            }
        }
    }
}

// ---------------------------------------------------------------------------
// Seeds and export
// ---------------------------------------------------------------------------
/// Every seed entry that joins a curation pass has an id that starts with
/// `seed:`; entries of other sources keep their ids.
pub proof fn law_seed_entry_ids(seeds: Seq<SeedModel>)
    ensures
        forall|i: int|
            0 <= i < crate::seed_entries(seeds).len() && (#[trigger] crate::seed_entries(seeds)[i]).source
                == crate::types::EntrySource::Seed ==> crate::text::has_prefix(
                crate::seed_entries(seeds)[i].id,
                "seed:"@,
            ),
    decreases seeds.len(),
{
    if seeds.len() > 0 {
        law_seed_entry_ids(seeds.drop_last());
        let a = crate::seed_entries(seeds.drop_last());
        let b = seeds.last().entries.map_values(|e: EntryModel| crate::seed_entry(e));
        let all = crate::seed_entries(seeds);
        assert(all == a + b);
        assert forall|i: int|
            0 <= i < all.len() && (#[trigger] all[i]).source == crate::types::EntrySource::Seed implies crate::text::has_prefix(
            all[i].id,
            "seed:"@,
        ) by {
            if i < a.len() {
                assert(all[i] == a[i]);
            } else {
                let e = seeds.last().entries[i - a.len()];
                assert(all[i] == crate::seed_entry(e));
                if !crate::text::has_prefix(e.id, "seed:"@) {
                    assert(("seed:"@ + e.slug).subrange(0, "seed:"@.len() as int) =~= "seed:"@);
                }
            }
        }
    }
}

/// An export keeps exactly the useful and critical curated entries, in order.
pub proof fn law_export_positive(es: Seq<EntryModel>)
    ensures
        forall|i: int|
            0 <= i < crate::exportable(es).len() ==> (#[trigger] crate::exportable(es)[i]).curation.is_positive(),
        forall|i: int|
            0 <= i < es.len() && (#[trigger] es[i]).curation.is_positive() ==> crate::exportable(
                es,
            ).contains(es[i]),
        forall|x: EntryModel| #[trigger] crate::exportable(es).contains(x) ==> es.contains(x),
{
    let pred = |e: EntryModel| e.curation.is_positive();
    assert forall|i: int| 0 <= i < crate::exportable(es).len() implies (#[trigger] crate::exportable(
        es,
    )[i]).curation.is_positive() by {
        es.lemma_filter_pred(pred, i);
    }
    assert forall|i: int| 0 <= i < es.len() && (#[trigger] es[i]).curation.is_positive() implies crate::exportable(
        es,
    ).contains(es[i]) by {
        es.lemma_filter_contains(pred, i);
    }
    assert forall|x: EntryModel| #[trigger] crate::exportable(es).contains(x) implies es.contains(x) by {
        es.lemma_filter_contains_rev(pred, x);
    }
}

/// Importing the seed file that an export gives writes it to the shared
/// seeds under its domain's file name, where reading the seeds finds it,
/// and the import counts as many entries as the export.
pub proof fn law_export_then_import(m: StoreModel, domain: Seq<char>, description: Seq<char>)
    requires
        curated_all(m) is Some,
    ensures
        ({
            let seed = SeedModel {
                domain,
                description,
                level: crate::types::SeedLevel::Both,
                entries: crate::exportable(curated_all(m)->0),
            };
            let n = m.with_seed(
                SeedDir::of_level(seed.level),
                crate::store::seed_file_name(domain),
                Some(seed),
            );
            &&& SeedDir::of_level(seed.level) == SeedDir::Shared
            &&& n.all_seeds().contains(seed)
            &&& seed.entries.len() == crate::exportable(curated_all(m)->0).len()
        }),
{
    let seed = SeedModel {
        domain,
        description,
        level: crate::types::SeedLevel::Both,
        entries: crate::exportable(curated_all(m)->0),
    };
    law_seed_write_listed(m, SeedDir::Shared, crate::store::seed_file_name(domain), seed);
}

} // verus!
