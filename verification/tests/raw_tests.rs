use kb_core::fingerprint::fingerprint;
use kb_core::raw::{to_kb_entries, to_kb_entry, IngestFinding, RawCache};
use kb_core::store::{RawFile, Store};
use kb_core::types::{CurationStatus, EntrySource, Impact, RawQueryParams, Timestamp};

fn temp_store() -> Store {
    Store::new("kb-test".to_string())
}

fn sample_params() -> RawQueryParams {
    RawQueryParams {
        keywords: "reentrancy".to_string(),
        impact: vec!["HIGH".to_string(), "MEDIUM".to_string()],
        tags: vec!["Reentrancy".to_string()],
        protocol_categories: vec![],
        min_quality: None,
    }
}

fn sample_finding(slug: &str, impact: &str) -> IngestFinding {
    IngestFinding {
        slug: slug.to_string(),
        title: format!("Finding: {}", slug),
        impact: impact.to_string(),
        quality_score: 4_000_000,
        firm: "TestFirm".to_string(),
        protocol: "TestProtocol".to_string(),
        tags: vec!["Reentrancy".to_string()],
        category: "Lending".to_string(),
        summary: Some("Test summary".to_string()),
        content: None,
    }
}

#[test]
fn ingest_writes_to_raw_cache() {
    let mut store = temp_store();
    let mut raw = RawCache::new(&mut store);
    let count = raw.ingest(&sample_params(), vec![sample_finding("test-1", "HIGH")]).unwrap();
    assert_eq!(count, 1);
    assert!(raw.is_cached(&sample_params()).unwrap());
}

#[test]
fn ingest_skips_when_cache_fresh() {
    let mut store = temp_store();
    let mut raw = RawCache::new(&mut store);
    let params = sample_params();
    assert_eq!(raw.ingest(&params, vec![sample_finding("a", "HIGH")]).unwrap(), 1);
    assert_eq!(raw.ingest(&params, vec![sample_finding("b", "HIGH")]).unwrap(), 0);
}

#[test]
fn ingest_filters_invalid_impact() {
    let mut store = temp_store();
    let mut raw = RawCache::new(&mut store);
    let findings = vec![
        sample_finding("high-one", "HIGH"),
        sample_finding("low-one", "LOW"),
        sample_finding("med-one", "MEDIUM"),
    ];
    let count = raw.ingest(&sample_params(), findings).unwrap();
    assert_eq!(count, 2);
}

#[test]
fn evict_expired_removes_stale_files() {
    let mut store = temp_store();
    let mut raw = RawCache::new(&mut store);
    let fresh = RawQueryParams { keywords: "keep".to_string(), ..sample_params() };
    let stale = RawQueryParams { keywords: "remove".to_string(), ..sample_params() };
    raw.ingest(&fresh, vec![sample_finding("keep-1", "HIGH")]).unwrap();
    raw.ingest_with_ttl(&stale, vec![sample_finding("rm-1", "HIGH")], 0).unwrap();
    assert_eq!(raw.evict_expired().unwrap(), 1);
    assert_eq!(raw.all_entries().len(), 1);
}

// -- Further cases --

#[test]
fn ingest_at_time_and_expiry() {
    let mut store = temp_store();
    let mut raw = RawCache::new(&mut store);
    let t0 = Timestamp { secs: 1_000, nanos: 10 };
    let params = sample_params();
    assert_eq!(raw.ingest_at(&params, vec![sample_finding("a", "high")], 60, t0).unwrap(), 1);
    assert!(raw.is_cached_at(&params, Timestamp { secs: 1_060, nanos: 10 }).unwrap());
    assert!(!raw.is_cached_at(&params, Timestamp { secs: 1_060, nanos: 11 }).unwrap());
    // Expired: the next ingestion writes anew.
    let t1 = Timestamp { secs: 2_000, nanos: 0 };
    assert_eq!(raw.ingest_at(&params, vec![sample_finding("b", "MEDIUM"), sample_finding("c", "x")], 60, t1).unwrap(), 1);
    let entries = raw.all_entries();
    assert_eq!(entries.len(), 1);
    assert_eq!(entries[0].id, "solodit:b");
    assert_eq!(entries[0].ingested_at, t1);
    assert_eq!(raw.fresh_entries_at(t1).len(), 1);
    assert_eq!(raw.fresh_entries_at(Timestamp { secs: 3_000, nanos: 0 }).len(), 0);
}

#[test]
fn invalidate_forces_refresh() {
    let mut store = temp_store();
    let mut raw = RawCache::new(&mut store);
    let params = sample_params();
    raw.ingest(&params, vec![sample_finding("a", "HIGH")]).unwrap();
    raw.invalidate(&params);
    assert!(!raw.is_cached(&params).unwrap());
    assert_eq!(raw.ingest(&params, vec![sample_finding("b", "HIGH")]).unwrap(), 1);
}

#[test]
fn ingest_fails_on_malformed_cache_file() {
    let mut store = temp_store();
    let params = sample_params();
    store.load_raw_file(RawFile { name: fingerprint(&params), envelope: None });
    let mut raw = RawCache::new(&mut store);
    assert!(raw.ingest(&params, vec![sample_finding("a", "HIGH")]).is_err());
    assert!(raw.is_cached(&params).is_err());
    assert_eq!(raw.all_entries().len(), 0);
}

#[test]
fn negative_ttl_is_expired_at_once() {
    let mut store = temp_store();
    let mut raw = RawCache::new(&mut store);
    let t0 = Timestamp { secs: 5_000, nanos: 0 };
    raw.ingest_at(&sample_params(), vec![sample_finding("a", "HIGH")], u64::MAX, t0).unwrap();
    assert!(!raw.is_cached_at(&sample_params(), t0).unwrap());
    assert_eq!(raw.evict_expired_at(t0), 1);
}

#[test]
fn conversion_of_findings() {
    let now = Timestamp { secs: 42, nanos: 7 };
    let e = to_kb_entry(sample_finding("slug-1", "Medium"), now).unwrap();
    assert_eq!(e.id, "solodit:slug-1");
    assert_eq!(e.impact, Impact::Medium);
    assert_eq!(e.source, EntrySource::Solodit);
    assert_eq!(e.curation, CurationStatus::Unreviewed);
    assert_eq!(e.quality_score, 4_000_000);
    assert_eq!(e.relevance_score, 0);
    assert_eq!(e.ingested_at, now);
    assert!(e.last_curated_at.is_none());
    assert!(to_kb_entry(sample_finding("x", "critical"), now).is_none());
    let all = to_kb_entries(
        vec![sample_finding("a", "low"), sample_finding("b", "hIgH"), sample_finding("c", "MEDIUM")],
        now,
    );
    assert_eq!(all.len(), 2);
    assert_eq!(all[0].slug, "b");
    assert_eq!(all[1].slug, "c");
}

#[test]
fn second_eviction_removes_nothing_and_invalidate_keeps_others() {
    let mut store = temp_store();
    let mut raw = RawCache::new(&mut store);
    let t0 = Timestamp { secs: 100, nanos: 0 };
    let a = RawQueryParams { keywords: "a".to_string(), ..sample_params() };
    let b = RawQueryParams { keywords: "b".to_string(), ..sample_params() };
    raw.ingest_at(&a, vec![sample_finding("a1", "HIGH")], 10, t0).unwrap();
    raw.ingest_at(&b, vec![sample_finding("b1", "HIGH")], 1_000, t0).unwrap();
    let later = Timestamp { secs: 200, nanos: 0 };
    assert_eq!(raw.evict_expired_at(later), 1);
    assert_eq!(raw.evict_expired_at(later), 0);
    assert!(raw.is_cached_at(&b, later).unwrap());
    raw.invalidate(&a);
    assert!(raw.is_cached_at(&b, later).unwrap());
    assert_eq!(raw.all_entries().len(), 1);
}
