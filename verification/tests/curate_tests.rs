use kb_core::clock::current_time;
use kb_core::curate::{sort_entries, Curator};
use kb_core::scoring::{
    category_match_score, confidence_from_curation, context_is_empty, deduplicate,
    keyword_overlap_score, relevance_of, score_entry, tag_overlap_score,
};
use kb_core::store::Store;
use kb_core::types::{
    CuratedFile, CurationContext, CurationStatus, EntrySource, FeedbackItem, Impact, KbEntry,
    Pipeline, Timestamp,
};

fn temp_store() -> Store {
    Store::new("kb-test".to_string())
}

fn make_entry(id: &str, impact: Impact, quality: i64, curation: CurationStatus) -> KbEntry {
    KbEntry {
        id: id.to_string(),
        slug: id.to_string(),
        title: format!("Finding: {}", id),
        impact,
        quality_score: quality,
        firm: "Firm".to_string(),
        protocol: "Proto".to_string(),
        tags: vec!["Reentrancy".to_string()],
        category: "Lending".to_string(),
        summary: Some("summary".to_string()),
        content: None,
        design_context: None,
        code_context: None,
        source: EntrySource::Solodit,
        curation,
        relevance_score: 0,
        confidence: 0,
        ingested_at: current_time().unwrap(),
        last_curated_at: None,
        auditor_notes: None,
        confirmed_by: vec![],
    }
}

fn empty_context() -> CurationContext {
    CurationContext::default()
}

#[test]
fn curate_buckets_by_impact() {
    let mut store = temp_store();
    let mut curator = Curator::new(&mut store);
    let entries = vec![
        make_entry("h1", Impact::High, 4_000_000, CurationStatus::Unreviewed),
        make_entry("m1", Impact::Medium, 3_000_000, CurationStatus::Unreviewed),
        make_entry("h2", Impact::High, 5_000_000, CurationStatus::Unreviewed),
    ];
    let stats = curator.curate(entries, &empty_context()).unwrap();
    assert_eq!(stats.high_count, 2);
    assert_eq!(stats.medium_count, 1);
}

#[test]
fn curate_excludes_noise() {
    let mut store = temp_store();
    let mut curator = Curator::new(&mut store);
    let entries = vec![
        make_entry("good", Impact::High, 4_000_000, CurationStatus::Unreviewed),
        make_entry("noisy", Impact::High, 3_000_000, CurationStatus::Noise),
    ];
    let stats = curator.curate(entries, &empty_context()).unwrap();
    assert_eq!(stats.high_count, 1);
    assert_eq!(stats.noise_skipped, 1);
}

#[test]
fn curate_preserves_existing_curation() {
    let mut store = temp_store();
    let mut curator = Curator::new(&mut store);

    let entries = vec![make_entry("a", Impact::High, 4_000_000, CurationStatus::Unreviewed)];
    curator.curate(entries, &empty_context()).unwrap();
    curator
        .set_curation("a", CurationStatus::Useful, Some("good one".to_string()))
        .unwrap();

    let entries = vec![make_entry("a", Impact::High, 4_000_000, CurationStatus::Unreviewed)];
    curator.curate(entries, &empty_context()).unwrap();

    let high = store.read_curated(&Impact::High).unwrap().unwrap();
    assert_eq!(high.entries[0].curation, CurationStatus::Useful);
    assert_eq!(high.entries[0].auditor_notes.as_deref(), Some("good one"));
}

#[test]
fn apply_feedback_records_pipeline_confirmation() {
    let mut store = temp_store();
    let mut curator = Curator::new(&mut store);

    let entries = vec![make_entry("confirmed", Impact::High, 4_000_000, CurationStatus::Unreviewed)];
    curator.curate(entries, &empty_context()).unwrap();

    let feedback = vec![FeedbackItem {
        entry_id: "confirmed".to_string(),
        new_status: CurationStatus::Useful,
        reason: Some("valid finding".to_string()),
        pipeline: Some(Pipeline::DesignReview),
    }];
    let updated = curator.apply_feedback(&feedback).unwrap();
    assert_eq!(updated, 1);

    let high = store.read_curated(&Impact::High).unwrap().unwrap();
    let entry = &high.entries[0];
    assert_eq!(entry.curation, CurationStatus::Useful);
    assert_eq!(entry.confirmed_by.len(), 1);
    assert_eq!(entry.confirmed_by[0].pipeline, Pipeline::DesignReview);
}

#[test]
fn confidence_from_curation_values() {
    assert_eq!(confidence_from_curation(&CurationStatus::Critical, 500_000), 950_000);
    assert_eq!(confidence_from_curation(&CurationStatus::Useful, 500_000), 800_000);
    let unreviewed = confidence_from_curation(&CurationStatus::Unreviewed, 800_000) as i64;
    assert!((unreviewed - 560_000).abs() < 1_000);
    assert_eq!(confidence_from_curation(&CurationStatus::Noise, 900_000), 0);
}

// -- Further cases --

#[test]
fn feedback_from_same_pipeline_is_recorded_once() {
    let mut store = temp_store();
    let mut curator = Curator::new(&mut store);
    let entries = vec![make_entry("x", Impact::High, 4_000_000, CurationStatus::Unreviewed)];
    curator.curate(entries, &empty_context()).unwrap();
    let item = || FeedbackItem {
        entry_id: "x".to_string(),
        new_status: CurationStatus::Critical,
        reason: None,
        pipeline: Some(Pipeline::AuditSandbox),
    };
    assert_eq!(curator.apply_feedback(&vec![item(), item()]).unwrap(), 2);
    let high = store.read_curated(&Impact::High).unwrap().unwrap();
    assert_eq!(high.entries[0].curation, CurationStatus::Critical);
    assert_eq!(high.entries[0].confidence, 950_000);
    assert_eq!(high.entries[0].confirmed_by.len(), 1);
}

#[test]
fn feedback_without_positive_status_records_no_confirmation() {
    let mut store = temp_store();
    let mut curator = Curator::new(&mut store);
    let entries = vec![make_entry("x", Impact::Medium, 4_000_000, CurationStatus::Unreviewed)];
    curator.curate(entries, &empty_context()).unwrap();
    let feedback = vec![
        FeedbackItem {
            entry_id: "x".to_string(),
            new_status: CurationStatus::Noise,
            reason: Some("false positive".to_string()),
            pipeline: Some(Pipeline::DesignReview),
        },
        FeedbackItem {
            entry_id: "missing".to_string(),
            new_status: CurationStatus::Useful,
            reason: None,
            pipeline: None,
        },
    ];
    assert_eq!(curator.apply_feedback(&feedback).unwrap(), 1);
    let medium = store.read_curated(&Impact::Medium).unwrap().unwrap();
    assert_eq!(medium.entries[0].curation, CurationStatus::Noise);
    assert_eq!(medium.entries[0].confirmed_by.len(), 0);
    assert_eq!(medium.entries[0].auditor_notes.as_deref(), Some("false positive"));
}

#[test]
fn noise_marked_entry_stays_noise() {
    let mut store = temp_store();
    let mut curator = Curator::new(&mut store);
    let entries = || vec![make_entry("n", Impact::High, 4_000_000, CurationStatus::Unreviewed)];
    curator.curate(entries(), &empty_context()).unwrap();
    assert!(curator.set_curation("n", CurationStatus::Noise, None).unwrap());
    let stats = curator.curate(entries(), &empty_context()).unwrap();
    assert_eq!(stats.noise_skipped, 1);
    assert_eq!(stats.high_count, 0);
    assert_eq!(stats.total_processed, 1);
    // A third pass still knows the decision.
    let stats = curator.curate(entries(), &empty_context()).unwrap();
    assert_eq!(stats.noise_skipped, 1);
    assert_eq!(stats.high_count, 0);
    let high = store.read_curated(&Impact::High).unwrap().unwrap();
    assert_eq!(high.entries.len(), 1);
    assert_eq!(high.entries[0].curation, CurationStatus::Noise);
}

#[test]
fn set_curation_of_unknown_entry_is_false() {
    let mut store = temp_store();
    let mut curator = Curator::new(&mut store);
    assert!(!curator.set_curation("nope", CurationStatus::Useful, None).unwrap());
}

#[test]
fn curate_fails_on_malformed_curated_file() {
    let mut store = temp_store();
    store.load_curated(Impact::Medium, kb_core::store::CuratedSlot::Malformed);
    let mut curator = Curator::new(&mut store);
    let entries = vec![make_entry("a", Impact::High, 4_000_000, CurationStatus::Unreviewed)];
    assert!(curator.curate(entries, &empty_context()).is_err());
    assert!(curator.set_curation("a", CurationStatus::Useful, None).is_err());
}

#[test]
fn curate_sorts_by_rank_then_relevance_then_quality() {
    let mut store = temp_store();
    let mut curator = Curator::new(&mut store);
    let entries = vec![
        make_entry("low", Impact::High, 1_000_000, CurationStatus::Unreviewed),
        make_entry("crit", Impact::High, 1_000_000, CurationStatus::Critical),
        make_entry("top", Impact::High, 5_000_000, CurationStatus::Unreviewed),
        make_entry("useful", Impact::High, 2_000_000, CurationStatus::Useful),
    ];
    curator.curate(entries, &empty_context()).unwrap();
    let high = store.read_curated(&Impact::High).unwrap().unwrap();
    let ids: Vec<&str> = high.entries.iter().map(|e| e.id.as_str()).collect();
    assert_eq!(ids, vec!["crit", "useful", "top", "low"]);
}

#[test]
fn dedupe_keeps_highest_quality_per_slug() {
    let mut a = make_entry("dup", Impact::High, 2_000_000, CurationStatus::Unreviewed);
    a.title = "first".to_string();
    let mut b = make_entry("dup", Impact::High, 4_000_000, CurationStatus::Unreviewed);
    b.title = "second".to_string();
    let mut c = make_entry("dup", Impact::High, 4_000_000, CurationStatus::Unreviewed);
    c.title = "third".to_string();
    let other = make_entry("other", Impact::Medium, 1_000_000, CurationStatus::Unreviewed);
    let r = deduplicate(vec![a, other, b, c]);
    assert_eq!(r.len(), 2);
    assert_eq!(r[0].title, "second");
    assert_eq!(r[1].slug, "other");
}

#[test]
fn score_with_empty_context() {
    // quality 4/5 * 0.5 + 1.0 * 0.3 + 0.1 = 0.8; unreviewed confidence 0.56.
    let mut e = make_entry("s", Impact::High, 4_000_000, CurationStatus::Unreviewed);
    let now = Timestamp { secs: 1_700_000_000, nanos: 5 };
    score_entry(&mut e, &empty_context(), now);
    assert_eq!(e.relevance_score, 800_000);
    assert_eq!(e.confidence, 560_000);
    assert_eq!(e.last_curated_at, Some(now));
}

#[test]
fn score_with_matching_context() {
    // 0.5 * 0.6 + 0.5 * 0.3 = 0.45 base; tags 1/1 * 0.067, category 0.067,
    // keywords 1/2 * 0.067 = 0.0335 → 0.6175.
    let e = make_entry("m", Impact::Medium, 3_000_000, CurationStatus::Unreviewed);
    let ctx = CurationContext {
        codebase_keywords: vec!["SUMMARY".to_string(), "absent".to_string()],
        integration_types: vec!["reentrancy-guard".to_string()],
        protocol_categories: vec!["lending".to_string()],
    };
    assert!(!context_is_empty(&ctx));
    assert_eq!(tag_overlap_score(&e.tags, &ctx.integration_types), 67_000);
    assert_eq!(category_match_score(&e.category, &ctx.protocol_categories), 67_000);
    assert_eq!(keyword_overlap_score(&e, &ctx.codebase_keywords), 33_500);
    assert_eq!(relevance_of(&e, &ctx), 617_500);
}

#[test]
fn sort_entries_is_stable_for_equal_keys() {
    let a = make_entry("a", Impact::High, 3_000_000, CurationStatus::Useful);
    let b = make_entry("b", Impact::High, 3_000_000, CurationStatus::Useful);
    let c = make_entry("c", Impact::High, 3_000_000, CurationStatus::Critical);
    let r = sort_entries(&vec![a, b, c]);
    let ids: Vec<&str> = r.iter().map(|e| e.id.as_str()).collect();
    assert_eq!(ids, vec!["c", "a", "b"]);
}

#[test]
fn curated_file_keeps_pass_time() {
    let mut store = temp_store();
    let now = Timestamp { secs: 1_800_000_000, nanos: 0 };
    let mut curator = Curator::new(&mut store);
    let entries = vec![make_entry("t", Impact::High, 4_000_000, CurationStatus::Unreviewed)];
    curator.curate_at(entries, &empty_context(), now).unwrap();
    let high: CuratedFile = store.read_curated(&Impact::High).unwrap().unwrap();
    assert_eq!(high.last_curated_at, now);
    assert_eq!(high.entries[0].last_curated_at, Some(now));
    let medium = store.read_curated(&Impact::Medium).unwrap().unwrap();
    assert_eq!(medium.entries.len(), 0);
}
