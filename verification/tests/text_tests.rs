use kb_core::clock::current_time;
use kb_core::commands::{parse_curation_status, parse_pipeline};
use kb_core::text::{
    concat_texts, contains, eq_ignore_ascii_case, replace_char, same_text, sort_texts, starts_with,
    text_le, to_lowercase, to_uppercase, trim,
};
use kb_core::types::{CurationStatus, Impact, Pipeline, RawCacheEnvelope, RawQueryParams, Timestamp};

#[test]
fn case_mapping_and_trimming() {
    assert_eq!(to_lowercase("ReEntrancy ÄB"), "reentrancy äb");
    assert_eq!(to_uppercase("medium"), "MEDIUM");
    assert_eq!(trim("  \t lending \n"), "lending");
}

#[test]
fn text_helpers() {
    assert!(same_text("abc", "abc"));
    assert!(!same_text("abc", "abd"));
    assert_eq!(concat_texts("seed:", "x"), "seed:x");
    assert_eq!(replace_char("access control list", ' ', '-'), "access-control-list");
    assert!(contains("finding: reentrancy", "reent"));
    assert!(contains("anything", ""));
    assert!(!contains("abc", "abcd"));
    assert!(starts_with("seed:abc", "seed:"));
    assert!(!starts_with("see", "seed:"));
    assert!(eq_ignore_ascii_case("Lending", "lENDING"));
    assert!(!eq_ignore_ascii_case("Lending", "Lendin"));
    assert!(text_le("B", "a"));
    assert!(text_le("ab", "abc"));
    assert!(!text_le("b", "a"));
}

#[test]
fn sorting_texts_by_code_points() {
    let v = vec!["b".to_string(), "Reentrancy".to_string(), "ERC4626".to_string(), "a".to_string()];
    assert_eq!(sort_texts(&v), vec!["ERC4626", "Reentrancy", "a", "b"]);
}

#[test]
fn command_names() {
    assert_eq!(parse_curation_status("Useful"), Some(CurationStatus::Useful));
    assert_eq!(parse_curation_status("NOISE"), Some(CurationStatus::Noise));
    assert_eq!(parse_curation_status("critical"), Some(CurationStatus::Critical));
    assert_eq!(parse_curation_status("unreviewed"), Some(CurationStatus::Unreviewed));
    assert_eq!(parse_curation_status("confirmed"), Some(CurationStatus::Useful));
    assert_eq!(parse_curation_status("False-Positive"), Some(CurationStatus::Noise));
    assert_eq!(parse_curation_status("escalate"), Some(CurationStatus::Critical));
    assert_eq!(parse_curation_status("dismissed"), None);
    assert_eq!(parse_pipeline("Design_Review"), Some(Pipeline::DesignReview));
    assert_eq!(parse_pipeline("audit_sandbox"), Some(Pipeline::AuditSandbox));
    assert_eq!(parse_pipeline("audit"), None);
}

#[test]
fn ranks() {
    assert_eq!(Impact::High.rank(), 2);
    assert_eq!(Impact::Medium.rank(), 1);
    assert_eq!(CurationStatus::Critical.rank(), 3);
    assert_eq!(CurationStatus::Useful.rank(), 2);
    assert_eq!(CurationStatus::Unreviewed.rank(), 1);
    assert_eq!(CurationStatus::Noise.rank(), 0);
    assert_eq!(CurationStatus::default(), CurationStatus::Unreviewed);
    assert_eq!(kb_core::types::SeedLevel::default(), kb_core::types::SeedLevel::Code);
}

#[test]
fn envelope_expiry() {
    let env = RawCacheEnvelope {
        fingerprint: "f".to_string(),
        query_params: RawQueryParams {
            keywords: String::new(),
            impact: vec![],
            tags: vec![],
            protocol_categories: vec![],
            min_quality: None,
        },
        fetched_at: Timestamp { secs: 100, nanos: 500 },
        ttl_secs: 10,
        entries: vec![],
    };
    assert!(!env.is_expired_at(Timestamp { secs: 110, nanos: 500 }));
    assert!(env.is_expired_at(Timestamp { secs: 110, nanos: 501 }));
    assert!(env.is_expired_at(Timestamp { secs: 111, nanos: 0 }));
    assert!(env.is_expired().unwrap());
    let now = current_time().unwrap();
    assert!(now.secs > 1_600_000_000);
    assert!(now.after(&Timestamp { secs: 100, nanos: 0 }));
}
