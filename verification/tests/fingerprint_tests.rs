use kb_core::fingerprint::{fingerprint, normalize, sha256_of_text, to_json, to_json_string};
use kb_core::types::RawQueryParams;

fn make_params(keywords: &str, tags: &[&str], categories: &[&str]) -> RawQueryParams {
    RawQueryParams {
        keywords: keywords.to_string(),
        impact: vec!["HIGH".to_string(), "MEDIUM".to_string()],
        tags: tags.iter().map(|s| s.to_string()).collect(),
        protocol_categories: categories.iter().map(|s| s.to_string()).collect(),
        min_quality: None,
    }
}

#[test]
fn deterministic_same_input() {
    let p = make_params("reentrancy", &["Reentrancy"], &["Lending"]);
    assert_eq!(fingerprint(&p), fingerprint(&p));
}

#[test]
fn deterministic_different_order() {
    let p1 = make_params("reentrancy", &["ERC4626", "Reentrancy"], &["Lending"]);
    let p2 = make_params("reentrancy", &["Reentrancy", "ERC4626"], &["Lending"]);
    assert_eq!(fingerprint(&p1), fingerprint(&p2));
}

#[test]
fn case_insensitive_keywords() {
    let p1 = make_params("Reentrancy", &[], &[]);
    let p2 = make_params("reentrancy", &[], &[]);
    assert_eq!(fingerprint(&p1), fingerprint(&p2));
}

#[test]
fn case_insensitive_tags() {
    let p1 = make_params("", &["Reentrancy"], &[]);
    let p2 = make_params("", &["reentrancy"], &[]);
    assert_eq!(fingerprint(&p1), fingerprint(&p2));
}

#[test]
fn whitespace_trimmed() {
    let p1 = make_params("  reentrancy  ", &[], &[]);
    let p2 = make_params("reentrancy", &[], &[]);
    assert_eq!(fingerprint(&p1), fingerprint(&p2));
}

#[test]
fn different_queries_different_fingerprints() {
    let p1 = make_params("reentrancy", &[], &[]);
    let p2 = make_params("overflow", &[], &[]);
    assert_ne!(fingerprint(&p1), fingerprint(&p2));
}

#[test]
fn length_is_16_hex_chars() {
    let p = make_params("test", &[], &[]);
    let fp = fingerprint(&p);
    assert_eq!(fp.len(), 16);
    assert!(fp.chars().all(|c| c.is_ascii_hexdigit()));
}

// -- Further cases --

#[test]
fn normalized_params_lowercase_sort_and_trim() {
    let mut p = make_params("  ReEntrancy ", &["b", "A"], &["Yield", "Lending"]);
    p.impact = vec!["medium".to_string(), "high".to_string()];
    let n = normalize(&p);
    assert_eq!(n.keywords, "reentrancy");
    assert_eq!(n.impact, vec!["HIGH".to_string(), "MEDIUM".to_string()]);
    assert_eq!(n.tags, vec!["a".to_string(), "b".to_string()]);
    assert_eq!(n.protocol_categories, vec!["lending".to_string(), "yield".to_string()]);
}

#[test]
fn json_of_params_matches_field_order() {
    let mut p = make_params("a\"b", &["t"], &[]);
    p.min_quality = Some(3);
    assert_eq!(
        to_json(&p),
        "{\"keywords\":\"a\\\"b\",\"impact\":[\"HIGH\",\"MEDIUM\"],\"tags\":[\"t\"],\"protocol_categories\":[],\"min_quality\":3}"
    );
    let p = make_params("", &[], &[]);
    assert_eq!(
        to_json(&p),
        "{\"keywords\":\"\",\"impact\":[\"HIGH\",\"MEDIUM\"],\"tags\":[],\"protocol_categories\":[],\"min_quality\":null}"
    );
}

#[test]
fn json_string_escapes() {
    assert_eq!(to_json_string("x\ny"), "\"x\\ny\"");
    assert_eq!(to_json_string("plain"), "\"plain\"");
    assert_eq!(to_json_string("a\u{1}\\"), "\"a\\u0001\\\\\"");
}

#[test]
fn sha256_of_known_text() {
    let d = sha256_of_text("abc");
    assert_eq!(d.len(), 32);
    assert_eq!(&d[..4], &[0xba, 0x78, 0x16, 0xbf]);
}

#[test]
fn fingerprint_is_hex_of_digest_prefix() {
    let p = make_params("test", &[], &[]);
    let json = to_json(&normalize(&p));
    let digest = sha256_of_text(&json);
    let expected: String = digest.iter().take(8).map(|b| format!("{:02x}", b)).collect();
    assert_eq!(fingerprint(&p), expected);
}

#[test]
fn min_quality_changes_fingerprint() {
    let p1 = make_params("x", &[], &[]);
    let mut p2 = make_params("x", &[], &[]);
    p2.min_quality = Some(4);
    assert_ne!(fingerprint(&p1), fingerprint(&p2));
}

#[test]
fn equal_up_to_case_and_order() {
    let p1 = make_params("x", &["Reentrancy", "erc4626"], &["Yield", "lending"]);
    let p2 = make_params("X ", &["reentrancy", "ERC4626"], &["Lending", "yield"]);
    assert_eq!(fingerprint(&p1), fingerprint(&p2));
}
