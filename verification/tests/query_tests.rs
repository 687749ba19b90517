use kb_core::clock::current_time;
use kb_core::query::{
    answer_query, has_context_for, has_overlap, matches_category, matches_keywords,
    passes_filters, stable_pipeline_boost, QueryEngine,
};
use kb_core::store::{CuratedSlot, Store};
use kb_core::types::{
    AbstractionContext, CuratedFile, CurationStatus, EntrySource, Impact, KbEntry, KbQuery,
    Pipeline,
};

fn temp_store() -> Store {
    Store::new("kb-test".to_string())
}

fn make_entry(
    id: &str,
    impact: Impact,
    quality: i64,
    curation: CurationStatus,
    tags: &[&str],
    category: &str,
) -> KbEntry {
    KbEntry {
        id: id.to_string(),
        slug: id.to_string(),
        title: format!("Finding: {}", id),
        impact,
        quality_score: quality,
        firm: "Firm".to_string(),
        protocol: "Proto".to_string(),
        tags: tags.iter().map(|s| s.to_string()).collect(),
        category: category.to_string(),
        summary: Some(format!("Summary for {}", id)),
        content: None,
        design_context: None,
        code_context: None,
        source: EntrySource::Solodit,
        curation,
        relevance_score: 500_000,
        confidence: 500_000,
        ingested_at: current_time().unwrap(),
        last_curated_at: None,
        auditor_notes: None,
        confirmed_by: vec![],
    }
}

fn seed_curated(store: &mut Store, high: Vec<KbEntry>, medium: Vec<KbEntry>) {
    let now = current_time().unwrap();
    store.write_curated(&CuratedFile { impact: Impact::High, last_curated_at: now, entries: high });
    store.write_curated(&CuratedFile {
        impact: Impact::Medium,
        last_curated_at: now,
        entries: medium,
    });
}

#[test]
fn query_returns_all_when_no_filters() {
    let mut store = temp_store();
    seed_curated(
        &mut store,
        vec![make_entry("h1", Impact::High, 4_000_000, CurationStatus::Unreviewed, &["Reentrancy"], "Lending")],
        vec![make_entry("m1", Impact::Medium, 3_000_000, CurationStatus::Unreviewed, &["ERC4626"], "Yield")],
    );
    let engine = QueryEngine::new(&store);
    let result = engine.query(&KbQuery { max_entries: 100, ..Default::default() }).unwrap();
    assert_eq!(result.entries.len(), 2);
    assert!(!result.truncated);
}

#[test]
fn query_severity_order_high_before_medium() {
    let mut store = temp_store();
    seed_curated(
        &mut store,
        vec![make_entry("h1", Impact::High, 4_000_000, CurationStatus::Unreviewed, &[], "")],
        vec![make_entry("m1", Impact::Medium, 5_000_000, CurationStatus::Critical, &[], "")],
    );
    let engine = QueryEngine::new(&store);
    let result = engine.query(&KbQuery { max_entries: 100, ..Default::default() }).unwrap();
    assert_eq!(result.entries[0].id, "h1");
}

#[test]
fn query_filter_by_tags() {
    let mut store = temp_store();
    seed_curated(
        &mut store,
        vec![
            make_entry("reent", Impact::High, 4_000_000, CurationStatus::Unreviewed, &["Reentrancy"], "Lending"),
            make_entry("oracle", Impact::High, 4_000_000, CurationStatus::Unreviewed, &["Oracle"], "Lending"),
        ],
        vec![],
    );
    let engine = QueryEngine::new(&store);
    let result = engine
        .query(&KbQuery {
            tags: vec!["Reentrancy".to_string()],
            max_entries: 100,
            ..Default::default()
        })
        .unwrap();
    assert_eq!(result.entries.len(), 1);
    assert_eq!(result.entries[0].id, "reent");
}

#[test]
fn query_excludes_noise_by_default() {
    let mut store = temp_store();
    seed_curated(
        &mut store,
        vec![
            make_entry("good", Impact::High, 4_000_000, CurationStatus::Useful, &[], ""),
            make_entry("bad", Impact::High, 4_000_000, CurationStatus::Noise, &[], ""),
        ],
        vec![],
    );
    let engine = QueryEngine::new(&store);
    let result = engine.query(&KbQuery { max_entries: 100, ..Default::default() }).unwrap();
    assert_eq!(result.entries.len(), 1);
    assert_eq!(result.entries[0].id, "good");
}

#[test]
fn query_truncates_to_budget() {
    let mut store = temp_store();
    seed_curated(
        &mut store,
        vec![
            make_entry("h1", Impact::High, 5_000_000, CurationStatus::Critical, &[], ""),
            make_entry("h2", Impact::High, 4_000_000, CurationStatus::Useful, &[], ""),
            make_entry("h3", Impact::High, 3_000_000, CurationStatus::Unreviewed, &[], ""),
        ],
        vec![make_entry("m1", Impact::Medium, 3_000_000, CurationStatus::Unreviewed, &[], "")],
    );
    let engine = QueryEngine::new(&store);
    let result = engine.query(&KbQuery { max_entries: 2, ..Default::default() }).unwrap();
    assert_eq!(result.entries.len(), 2);
    assert!(result.truncated);
    assert_eq!(result.total_available, 4);
}

#[test]
fn query_pipeline_boost_ranks_context_entries_higher() {
    let mut store = temp_store();

    let mut with_design =
        make_entry("design-aware", Impact::High, 4_000_000, CurationStatus::Unreviewed, &["ERC4626"], "");
    with_design.design_context = Some(AbstractionContext {
        indicators: vec!["missing minimum deposit".to_string()],
        description: None,
    });

    let without_design =
        make_entry("code-only", Impact::High, 4_000_000, CurationStatus::Unreviewed, &["ERC4626"], "");

    // Seed with code-only first to ensure the boost re-orders
    seed_curated(&mut store, vec![without_design, with_design], vec![]);

    let engine = QueryEngine::new(&store);
    let result = engine
        .query(&KbQuery {
            pipeline: Some(Pipeline::DesignReview),
            max_entries: 100,
            ..Default::default()
        })
        .unwrap();

    assert_eq!(result.entries.len(), 2);
    assert_eq!(result.entries[0].id, "design-aware");
    assert_eq!(result.entries[1].id, "code-only");
}

#[test]
fn query_empty_curated_returns_empty() {
    let store = temp_store();
    let engine = QueryEngine::new(&store);
    let result = engine.query(&KbQuery::default()).unwrap();
    assert_eq!(result.entries.len(), 0);
}

// -- Further cases --

#[test]
fn query_fails_on_malformed_curated_file() {
    let mut store = temp_store();
    store.load_curated(Impact::High, CuratedSlot::Malformed);
    let engine = QueryEngine::new(&store);
    assert!(engine.query(&KbQuery::default()).is_err());
}

#[test]
fn query_keeps_noise_when_asked() {
    let mut store = temp_store();
    seed_curated(
        &mut store,
        vec![make_entry("bad", Impact::High, 4_000_000, CurationStatus::Noise, &[], "")],
        vec![],
    );
    let engine = QueryEngine::new(&store);
    let result = engine
        .query(&KbQuery { exclude_noise: false, ..Default::default() })
        .unwrap();
    assert_eq!(result.entries.len(), 1);
    assert_eq!(result.total_available, 1);
}

#[test]
fn query_filters_by_category_and_keywords() {
    let mut store = temp_store();
    seed_curated(
        &mut store,
        vec![
            make_entry("vault-inflation", Impact::High, 4_000_000, CurationStatus::Unreviewed, &[], "Yield"),
            make_entry("lend-oracle", Impact::High, 4_000_000, CurationStatus::Unreviewed, &[], "Lending"),
        ],
        vec![make_entry("vault-rounding", Impact::Medium, 4_000_000, CurationStatus::Unreviewed, &[], "YIELD")],
    );
    let engine = QueryEngine::new(&store);
    let by_cat = engine
        .query(&KbQuery { categories: vec!["yield".to_string()], ..Default::default() })
        .unwrap();
    let ids: Vec<&str> = by_cat.entries.iter().map(|e| e.id.as_str()).collect();
    assert_eq!(ids, vec!["vault-inflation", "vault-rounding"]);
    let by_kw = engine
        .query(&KbQuery { keywords: vec!["ORACLE".to_string()], ..Default::default() })
        .unwrap();
    assert_eq!(by_kw.entries.len(), 1);
    assert_eq!(by_kw.entries[0].id, "lend-oracle");
}

#[test]
fn pipeline_boost_keeps_severity_and_rank_first() {
    let mut code_ctx = make_entry("m-ctx", Impact::Medium, 4_000_000, CurationStatus::Critical, &[], "");
    code_ctx.code_context = Some(AbstractionContext { indicators: vec![], description: None });
    let plain_high = make_entry("h-plain", Impact::High, 4_000_000, CurationStatus::Unreviewed, &[], "");
    let mut useful_ctx = make_entry("h-useful-ctx", Impact::High, 4_000_000, CurationStatus::Unreviewed, &[], "");
    useful_ctx.code_context = Some(AbstractionContext { indicators: vec![], description: None });
    let mut crit = make_entry("h-crit", Impact::High, 4_000_000, CurationStatus::Critical, &[], "");
    crit.relevance_score = 100;
    let r = stable_pipeline_boost(&vec![code_ctx, plain_high, useful_ctx, crit], Pipeline::AuditSandbox);
    let ids: Vec<&str> = r.iter().map(|e| e.id.as_str()).collect();
    assert_eq!(ids, vec!["h-crit", "h-useful-ctx", "h-plain", "m-ctx"]);
}

#[test]
fn filter_helpers() {
    let tags = vec!["Reentrancy".to_string(), "ERC4626".to_string()];
    assert!(has_overlap(&tags, &vec!["erc4626".to_string()]));
    assert!(!has_overlap(&tags, &vec!["oracle".to_string()]));
    assert!(!has_overlap(&vec![], &vec!["oracle".to_string()]));
    assert!(matches_category("Lending", &vec!["LENDING".to_string()]));
    assert!(!matches_category("Lending", &vec![]));
    let e = make_entry("x", Impact::High, 1, CurationStatus::Useful, &[], "");
    assert!(matches_keywords(&e, &vec!["summary FOR".to_string()]));
    assert!(!matches_keywords(&e, &vec!["nothing".to_string()]));
    assert!(!has_context_for(&e, Pipeline::DesignReview));
    let q = KbQuery { tags: vec!["oracle".to_string()], ..Default::default() };
    assert!(!passes_filters(&q, &e));
    assert!(passes_filters(&KbQuery::default(), &e));
}

#[test]
fn answer_query_budget_zero() {
    let all = vec![
        make_entry("a", Impact::High, 1, CurationStatus::Useful, &[], ""),
        make_entry("b", Impact::High, 1, CurationStatus::Useful, &[], ""),
    ];
    let r = answer_query(&all, &KbQuery { max_entries: 0, ..Default::default() });
    assert_eq!(r.entries.len(), 0);
    assert_eq!(r.total_available, 2);
    assert!(r.truncated);
}

#[test]
fn query_without_pipeline_orders_by_curation_rank() {
    let mut store = temp_store();
    seed_curated(
        &mut store,
        vec![
            make_entry("a", Impact::High, 4_000_000, CurationStatus::Unreviewed, &[], ""),
            make_entry("b", Impact::High, 4_000_000, CurationStatus::Critical, &[], ""),
        ],
        vec![make_entry("m", Impact::Medium, 4_000_000, CurationStatus::Critical, &[], "")],
    );
    let engine = QueryEngine::new(&store);
    let result = engine.query(&KbQuery { max_entries: 100, ..Default::default() }).unwrap();
    let ids: Vec<&str> = result.entries.iter().map(|e| e.id.as_str()).collect();
    assert_eq!(ids, vec!["b", "a", "m"]);
}
