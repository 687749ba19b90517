use kb_core::clock::current_time;
use kb_core::store::{CuratedSlot, KbError, RawFile, SeedDir, SeedRecord, Store};
use kb_core::text::join_path;
use kb_core::types::{
    CuratedFile, CurationStatus, EntrySource, Impact, KbEntry, RawCacheEnvelope, RawQueryParams,
    SeedFile, SeedLevel,
};

fn temp_store() -> Store {
    Store::new("kb-test".to_string())
}

fn sample_entry(id: &str, impact: Impact) -> KbEntry {
    KbEntry {
        id: id.to_string(),
        slug: id.to_string(),
        title: format!("Finding: {}", id),
        impact,
        quality_score: 4_000_000,
        firm: "TestFirm".to_string(),
        protocol: "TestProtocol".to_string(),
        tags: vec!["Reentrancy".to_string()],
        category: "Lending".to_string(),
        summary: Some("Test summary".to_string()),
        content: None,
        design_context: None,
        code_context: None,
        source: EntrySource::Solodit,
        curation: CurationStatus::Unreviewed,
        relevance_score: 0,
        confidence: 0,
        ingested_at: current_time().unwrap(),
        last_curated_at: None,
        auditor_notes: None,
        confirmed_by: vec![],
    }
}

fn sample_envelope(fingerprint: &str) -> RawCacheEnvelope {
    RawCacheEnvelope {
        fingerprint: fingerprint.to_string(),
        query_params: RawQueryParams {
            keywords: "reentrancy".to_string(),
            impact: vec!["HIGH".to_string()],
            tags: vec![],
            protocol_categories: vec![],
            min_quality: None,
        },
        fetched_at: current_time().unwrap(),
        ttl_secs: 300,
        entries: vec![sample_entry("solodit:test-1", Impact::High)],
    }
}

#[test]
fn raw_roundtrip() {
    let mut store = temp_store();
    let env = sample_envelope("abc123");
    store.write_raw(&env);
    let loaded = store.read_raw("abc123").unwrap().unwrap();
    assert_eq!(loaded.fingerprint, "abc123");
    assert_eq!(loaded.entries.len(), 1);
}

#[test]
fn raw_missing_returns_none() {
    let store = temp_store();
    assert!(store.read_raw("nonexistent").unwrap().is_none());
}

#[test]
fn raw_delete() {
    let mut store = temp_store();
    store.write_raw(&sample_envelope("to-delete"));
    store.delete_raw("to-delete");
    assert!(store.read_raw("to-delete").unwrap().is_none());
}

#[test]
fn raw_list() {
    let mut store = temp_store();
    store.write_raw(&sample_envelope("fp1"));
    store.write_raw(&sample_envelope("fp2"));
    assert_eq!(store.list_raw().len(), 2);
}

#[test]
fn raw_skips_malformed_files() {
    let mut store = temp_store();
    store.write_raw(&sample_envelope("valid"));
    store.load_raw_file(RawFile { name: "bad".to_string(), envelope: None });
    assert_eq!(store.list_raw().len(), 1);
}

#[test]
fn curated_roundtrip() {
    let mut store = temp_store();
    let file = CuratedFile {
        impact: Impact::High,
        last_curated_at: current_time().unwrap(),
        entries: vec![sample_entry("solodit:high-1", Impact::High)],
    };
    store.write_curated(&file);
    let loaded = store.read_curated(&Impact::High).unwrap().unwrap();
    assert_eq!(loaded.entries.len(), 1);
}

#[test]
fn curated_missing_returns_none() {
    let store = temp_store();
    assert!(store.read_curated(&Impact::High).unwrap().is_none());
}

#[test]
fn update_curated_entry_by_id() {
    let mut store = temp_store();
    let file = CuratedFile {
        impact: Impact::High,
        last_curated_at: current_time().unwrap(),
        entries: vec![sample_entry("solodit:target", Impact::High)],
    };
    store.write_curated(&file);
    let updated = store
        .update_curated_entry("solodit:target", |mut e: KbEntry| {
            e.curation = CurationStatus::Useful;
            e
        })
        .unwrap();
    assert!(updated);
    let loaded = store.read_curated(&Impact::High).unwrap().unwrap();
    assert_eq!(loaded.entries[0].curation, CurationStatus::Useful);
}

#[test]
fn seed_roundtrip_in_subdirs() {
    let mut store = temp_store();
    let seed = SeedFile {
        domain: "ERC4626".to_string(),
        description: "Known vault bugs".to_string(),
        level: SeedLevel::Code,
        entries: vec![sample_entry("seed:inflation-attack", Impact::High)],
    };
    store.write_seed(&seed);
    let loaded = store.read_seeds();
    assert_eq!(loaded.len(), 1);
    assert_eq!(loaded[0].domain, "ERC4626");
}

#[test]
fn seed_writes_to_correct_subdir() {
    let mut store = temp_store();

    let code_seed = SeedFile {
        domain: "code-test".to_string(),
        description: "test".to_string(),
        level: SeedLevel::Code,
        entries: vec![],
    };
    let design_seed = SeedFile {
        domain: "design-test".to_string(),
        description: "test".to_string(),
        level: SeedLevel::Design,
        entries: vec![],
    };
    let shared_seed = SeedFile {
        domain: "shared-test".to_string(),
        description: "test".to_string(),
        level: SeedLevel::Both,
        entries: vec![],
    };

    store.write_seed(&code_seed);
    store.write_seed(&design_seed);
    store.write_seed(&shared_seed);

    let paths = store.list_seed_paths();
    assert_eq!(paths.len(), 3);

    let loaded = store.read_seeds();
    assert_eq!(loaded.len(), 3);
}

// -- Further cases --

#[test]
fn paths_of_files() {
    let store = Store::new("/data/kb".to_string());
    assert_eq!(store.raw_path("abc"), "/data/kb/raw/abc.json");
    assert_eq!(store.curated_path(Impact::High), "/data/kb/curated/high.json");
    assert_eq!(store.curated_path(Impact::Medium), "/data/kb/curated/medium.json");
    assert_eq!(store.seed_path(SeedDir::Design, "vault"), "/data/kb/seeds/design/vault.json");
    assert_eq!(store.seed_path(SeedDir::Root, "old"), "/data/kb/seeds/old.json");
    assert_eq!(store.base_dir(), "/data/kb");
    assert_eq!(join_path("a", "/b"), "/b");
}

#[test]
fn seed_file_name_and_order_of_listing() {
    let mut store = Store::new("kb".to_string());
    store.load_seed_file(SeedRecord { dir: SeedDir::Root, name: "legacy".to_string(), seed: None });
    let seed = SeedFile {
        domain: "Access Control".to_string(),
        description: "d".to_string(),
        level: SeedLevel::Design,
        entries: vec![],
    };
    store.write_seed(&seed);
    store.write_seed(&SeedFile { description: "again".to_string(), ..seed.clone() });
    let paths = store.list_seed_paths();
    assert_eq!(paths, vec!["kb/seeds/design/access-control.json".to_string(), "kb/seeds/legacy.json".to_string()]);
    let seeds = store.read_seeds();
    assert_eq!(seeds.len(), 1);
    assert_eq!(seeds[0].description, "again");
}

#[test]
fn malformed_files_fail_reads() {
    let mut store = temp_store();
    store.load_raw_file(RawFile { name: "broken".to_string(), envelope: None });
    store.load_curated(Impact::Medium, CuratedSlot::Malformed);
    match store.read_raw("broken") {
        Err(KbError::Malformed(path)) => assert_eq!(path, "kb-test/raw/broken.json"),
        _ => panic!("expected a malformed file"),
    }
    match store.read_curated(&Impact::Medium) {
        Err(KbError::Malformed(path)) => assert_eq!(path, "kb-test/curated/medium.json"),
        _ => panic!("expected a malformed file"),
    }
    assert!(store.read_curated(&Impact::High).unwrap().is_none());
    assert!(store.find_entry_mut("anything").is_err());
}

#[test]
fn find_entry_searches_high_then_medium() {
    let mut store = temp_store();
    store.write_curated(&CuratedFile {
        impact: Impact::Medium,
        last_curated_at: current_time().unwrap(),
        entries: vec![sample_entry("m", Impact::Medium)],
    });
    let (impact, entry) = store.find_entry_mut("m").unwrap().unwrap();
    assert_eq!(impact, Impact::Medium);
    assert_eq!(entry.id, "m");
    assert!(store.find_entry_mut("zzz").unwrap().is_none());
    assert!(!store.update_curated_entry("zzz", |e: KbEntry| e).unwrap());
}

#[test]
fn raw_ttl_setting() {
    let mut store = temp_store();
    assert_eq!(store.raw_ttl_secs(), 300);
    store.set_raw_ttl_secs(1_800);
    assert_eq!(store.raw_ttl_secs(), 1_800);
    assert_eq!(store.raw_files().len(), 0);
    assert_eq!(store.seed_records().len(), 0);
    assert!(matches!(store.curated_slot(Impact::High), CuratedSlot::Missing));
}
