use dnsqb_service::install_region::{detect_system_region, normalize_region_code, suggested_list};

#[test]
fn normalize_region_code_accepts_uppercase() {
    assert_eq!(normalize_region_code("UA"), Some("ua".to_string()));
}

#[test]
fn normalize_region_code_accepts_lowercase() {
    assert_eq!(normalize_region_code("de"), Some("de".to_string()));
}

#[test]
fn normalize_region_code_trims_whitespace() {
    assert_eq!(normalize_region_code("  gb  "), Some("gb".to_string()));
}

#[test]
fn normalize_region_code_mixed_case() {
    assert_eq!(normalize_region_code("Us"), Some("us".to_string()));
}

#[test]
fn normalize_region_code_rejects_numeric_m49() {
    assert_eq!(normalize_region_code("241"), None);
}

#[test]
fn normalize_region_code_rejects_three_letters() {
    assert_eq!(normalize_region_code("UKR"), None);
}

#[test]
fn normalize_region_code_rejects_single_letter() {
    assert_eq!(normalize_region_code("u"), None);
}

#[test]
fn normalize_region_code_rejects_empty() {
    assert_eq!(normalize_region_code(""), None);
}

#[test]
fn normalize_region_code_rejects_garbage() {
    assert_eq!(normalize_region_code("uk-UA"), None);
}

fn available() -> Vec<String> {
    vec![
        "ua".to_string(),
        "us".to_string(),
        "de".to_string(),
        "pl".to_string(),
        "gb".to_string(),
        "global".to_string(),
        "gov-ua".to_string(),
    ]
}

#[test]
fn suggested_list_matches_available_region() {
    assert_eq!(
        suggested_list(Some("ua"), &available()),
        Some("ua".to_string())
    );
}

#[test]
fn suggested_list_none_when_region_absent() {
    assert_eq!(suggested_list(None, &available()), None);
}

#[test]
fn suggested_list_none_when_region_not_available() {
    assert_eq!(suggested_list(Some("fr"), &available()), None);
}

#[test]
fn normalize_region_code_rejects_global_shaped_input() {
    assert_eq!(normalize_region_code("global"), None);
    assert_eq!(normalize_region_code("gov-ua"), None);
}

#[test]
fn normalizing_a_region_code_twice_changes_nothing_more() {
    let once = normalize_region_code(" Pl ");
    assert_eq!(once.as_deref(), Some("pl"));
    assert_eq!(normalize_region_code(once.as_deref().unwrap_or("")), once);
}

#[test]
fn the_stored_region_is_normalized_and_may_be_absent() {
    assert_eq!(detect_system_region(Some("UA")), Some("ua".to_string()));
    assert_eq!(detect_system_region(Some("001")), None);
    assert_eq!(detect_system_region(None), None);
}
