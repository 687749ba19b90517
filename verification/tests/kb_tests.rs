use kb_core::clock::current_time;
use kb_core::raw::IngestFinding;
use kb_core::store::Store;
use kb_core::types::{
    CurationContext, CurationStatus, EntrySource, FeedbackItem, Impact, KbEntry, KbQuery,
    Pipeline, RawQueryParams, SeedFile, SeedLevel, Timestamp,
};
use kb_core::KnowledgeBase;

fn temp_kb() -> KnowledgeBase {
    KnowledgeBase::new("kb-test".to_string())
}

fn sample_params(keywords: &str) -> RawQueryParams {
    RawQueryParams {
        keywords: keywords.to_string(),
        impact: vec!["HIGH".to_string(), "MEDIUM".to_string()],
        tags: vec![],
        protocol_categories: vec![],
        min_quality: None,
    }
}

fn sample_finding(slug: &str, impact: &str, tags: &[&str], category: &str) -> IngestFinding {
    IngestFinding {
        slug: slug.to_string(),
        title: format!("Finding: {}", slug),
        impact: impact.to_string(),
        quality_score: 4_000_000,
        firm: "Firm".to_string(),
        protocol: "Proto".to_string(),
        tags: tags.iter().map(|s| s.to_string()).collect(),
        category: category.to_string(),
        summary: Some(format!("Summary for {}", slug)),
        content: None,
    }
}

fn seed_entry(slug: &str, id: &str, curation: CurationStatus) -> KbEntry {
    KbEntry {
        id: id.to_string(),
        slug: slug.to_string(),
        title: format!("Seed: {}", slug),
        impact: Impact::High,
        quality_score: 5_000_000,
        firm: String::new(),
        protocol: String::new(),
        tags: vec![],
        category: "Yield".to_string(),
        summary: Some("Seed summary".to_string()),
        content: None,
        design_context: None,
        code_context: None,
        source: EntrySource::Seed,
        curation,
        relevance_score: 1_000_000,
        confidence: 1_000_000,
        ingested_at: current_time().unwrap(),
        last_curated_at: None,
        auditor_notes: None,
        confirmed_by: vec![],
    }
}

#[test]
fn e2e_ingest_curate_query() {
    let mut kb = temp_kb();
    kb.ingest(
        &sample_params("reentrancy"),
        vec![
            sample_finding("reent-1", "HIGH", &["Reentrancy"], "Lending"),
            sample_finding("reent-2", "MEDIUM", &["Reentrancy"], "Lending"),
        ],
    )
    .unwrap();

    let stats = kb.curate(&CurationContext::default()).unwrap();
    assert_eq!(stats.total_processed, 2);

    let result = kb.query(&KbQuery { max_entries: 100, ..Default::default() }).unwrap();
    assert_eq!(result.entries.len(), 2);
}

#[test]
fn e2e_feedback_with_pipeline() {
    let mut kb = temp_kb();
    kb.ingest(&sample_params("test"), vec![sample_finding("confirmed-bug", "HIGH", &[], "")])
        .unwrap();
    kb.curate(&CurationContext::default()).unwrap();

    let feedback = vec![FeedbackItem {
        entry_id: "solodit:confirmed-bug".to_string(),
        new_status: CurationStatus::Useful,
        reason: Some("valid".to_string()),
        pipeline: Some(Pipeline::AuditSandbox),
    }];
    kb.apply_feedback(&feedback).unwrap();

    let result = kb.query(&KbQuery { max_entries: 100, ..Default::default() }).unwrap();
    let entry = &result.entries[0];
    assert_eq!(entry.curation, CurationStatus::Useful);
    assert_eq!(entry.confirmed_by.len(), 1);
    assert_eq!(entry.confirmed_by[0].pipeline, Pipeline::AuditSandbox);
}

#[test]
fn e2e_seeds_merge_with_solodit() {
    let mut kb = temp_kb();

    let seed = SeedFile {
        domain: "Yield".to_string(),
        description: "test".to_string(),
        level: SeedLevel::Design,
        entries: vec![seed_entry("inflation-attack", "seed:inflation-attack", CurationStatus::Critical)],
    };
    kb.import_seed(seed);

    kb.ingest(&sample_params("vault"), vec![sample_finding("vault-bug", "HIGH", &["ERC4626"], "Yield")])
        .unwrap();

    let stats = kb.curate(&CurationContext::default()).unwrap();
    assert_eq!(stats.high_count, 2);
}

// -- Further cases --

#[test]
fn seed_ids_get_seed_prefix() {
    let mut kb = temp_kb();
    let seed = SeedFile {
        domain: "Access Control".to_string(),
        description: "d".to_string(),
        level: SeedLevel::Both,
        entries: vec![
            seed_entry("admin-privilege", "custom-id", CurationStatus::Useful),
            seed_entry("role-separation", "seed:role-separation", CurationStatus::Unreviewed),
        ],
    };
    assert_eq!(kb.import_seed(seed), 2);
    assert_eq!(kb.list_seeds(), vec!["kb-test/seeds/shared/access-control.json".to_string()]);
    kb.curate(&CurationContext::default()).unwrap();
    let result = kb.query(&KbQuery::default()).unwrap();
    let ids: Vec<&str> = result.entries.iter().map(|e| e.id.as_str()).collect();
    assert_eq!(ids, vec!["seed:admin-privilege", "seed:role-separation"]);
}

#[test]
fn export_keeps_useful_and_critical() {
    let mut kb = temp_kb();
    kb.ingest(
        &sample_params("x"),
        vec![
            sample_finding("a", "HIGH", &[], ""),
            sample_finding("b", "MEDIUM", &[], ""),
            sample_finding("c", "HIGH", &[], ""),
        ],
    )
    .unwrap();
    kb.curate(&CurationContext::default()).unwrap();
    assert!(kb.set_curation("solodit:a", CurationStatus::Critical, None).unwrap());
    assert!(kb.set_curation("solodit:b", CurationStatus::Useful, Some("n".to_string())).unwrap());
    assert!(kb.set_curation("solodit:c", CurationStatus::Noise, None).unwrap());
    assert!(!kb.set_curation("solodit:zzz", CurationStatus::Noise, None).unwrap());
    let (seed, stats) = kb.export_curated("Lending", "Exported curated entries").unwrap();
    assert_eq!(stats.exported, 2);
    assert_eq!(seed.level, SeedLevel::Both);
    assert_eq!(seed.domain, "Lending");
    assert_eq!(seed.entries[0].id, "solodit:a");
    assert_eq!(seed.entries[1].id, "solodit:b");
    assert_eq!(seed.entries[1].auditor_notes.as_deref(), Some("n"));
}

#[test]
fn cache_lifecycle_through_the_knowledge_base() {
    let mut kb = temp_kb();
    let params = sample_params("oracle");
    let t0 = Timestamp { secs: 10_000, nanos: 0 };
    assert_eq!(kb.ingest_at(&params, vec![sample_finding("o", "HIGH", &[], "")], 100, t0).unwrap(), 1);
    assert!(kb.is_cached_at(&params, t0).unwrap());
    assert_eq!(kb.ingest_at(&params, vec![], 100, t0).unwrap(), 0);
    assert_eq!(kb.evict_expired_at(t0), 0);
    assert_eq!(kb.evict_expired_at(Timestamp { secs: 10_101, nanos: 0 }), 1);
    assert!(!kb.is_cached_at(&params, t0).unwrap());
    kb.ingest(&params, vec![]).unwrap();
    assert!(kb.is_cached(&params).unwrap());
    kb.invalidate(&params);
    assert!(!kb.is_cached(&params).unwrap());
    assert_eq!(kb.evict_expired().unwrap(), 0);
}

#[test]
fn knowledge_base_over_a_loaded_store() {
    let mut store = Store::new("elsewhere".to_string());
    store.set_raw_ttl_secs(1_800);
    let kb = KnowledgeBase::from_store(store);
    assert_eq!(kb.store().raw_ttl_secs(), 1_800);
    assert_eq!(kb.store().base_dir(), "elsewhere");
    assert!(kb.list_seeds().is_empty());
    let (seed, stats) = kb.export_curated("d", "e").unwrap();
    assert_eq!(stats.exported, 0);
    assert!(seed.entries.is_empty());
}
