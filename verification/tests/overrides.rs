use dnsqb_service::overrides::{
    changed_entries, parse_pattern, rule_matches, InvalidEntry, InvalidReason, ListKind,
    OverrideEntry, OverrideError, OverrideLists, OverridesFile,
};
use dnsqb_service::{canonical_name, normalize_domain};

fn entry(domain: &str, is_wildcard: bool, list: ListKind) -> OverrideEntry {
    OverrideEntry {
        domain: domain.to_string(),
        is_wildcard,
        list,
    }
}

fn lists(entries: Vec<OverrideEntry>) -> OverrideLists {
    OverrideLists::from_entries(entries)
}

fn decide(lists: &OverrideLists, domain: &str) -> Option<ListKind> {
    match lists.decision(domain) {
        Ok(decision) => decision,
        Err(_) => panic!("expected a valid name"),
    }
}

fn strings(table: &toml::Table, key: &str) -> Option<Vec<String>> {
    let Some(value) = table.get(key) else {
        return Some(Vec::new());
    };
    let array = value.as_array()?;
    let mut out = Vec::new();
    for item in array {
        out.push(item.as_str()?.to_string());
    }
    Some(out)
}

/// What a file with this content comes to: two lists and nothing else.
fn file(content: &str) -> OverridesFile {
    let Ok(table) = content.parse::<toml::Table>() else {
        return OverridesFile::Malformed;
    };
    if table.keys().any(|key| key != "allowlist" && key != "blocklist") {
        return OverridesFile::Malformed;
    }
    match (strings(&table, "allowlist"), strings(&table, "blocklist")) {
        (Some(allowlist), Some(blocklist)) => OverridesFile::Lists {
            allowlist,
            blocklist,
        },
        _ => OverridesFile::Malformed,
    }
}

fn load(content: &str) -> (OverrideLists, Vec<InvalidEntry>) {
    match OverrideLists::load(file(content)) {
        Ok(result) => result,
        Err(err) => panic!("expected Ok: {}", err.message()),
    }
}

#[test]
fn parse_pattern_exact_domain_is_not_wildcard() {
    let (domain, is_wildcard) = match parse_pattern("Example.COM.") {
        Ok(result) => result,
        Err(err) => panic!("expected Ok: {}", err.message()),
    };
    assert_eq!(domain, "example.com");
    assert!(!is_wildcard);
}

#[test]
fn parse_pattern_wildcard_prefix_is_stripped_and_normalized() {
    let (domain, is_wildcard) = match parse_pattern("*.Example.COM.") {
        Ok(result) => result,
        Err(err) => panic!("expected Ok: {}", err.message()),
    };
    assert_eq!(domain, "example.com");
    assert!(is_wildcard);
}

#[test]
fn parse_pattern_rejects_bare_leading_star_without_dot() {
    assert!(parse_pattern("*example.com").is_err());
}

#[test]
fn parse_pattern_rejects_a_second_star_after_the_leading_wildcard() {
    assert!(parse_pattern("*.*.example.com").is_err());
}

#[test]
fn parse_pattern_rejects_invalid_domain_after_stripping_prefix() {
    assert!(parse_pattern("*.").is_err());
}

#[test]
fn each_reason_against_a_pattern_is_told_apart() {
    assert!(matches!(
        parse_pattern("a*b.example"),
        Err(InvalidReason::UnexpectedWildcard)
    ));
    assert!(matches!(
        parse_pattern("."),
        Err(InvalidReason::EmptyDomain)
    ));
    assert!(matches!(
        parse_pattern("bad..example"),
        Err(InvalidReason::InvalidDomain)
    ));
}

#[test]
fn rule_matches_wildcard_matches_apex_and_subdomain_not_lookalike() {
    let wildcard = entry("example.com", true, ListKind::Blocklist);
    assert!(rule_matches("example.com", &wildcard));
    assert!(rule_matches("sub.example.com", &wildcard));
    assert!(!rule_matches("evil-example.com", &wildcard));
}

#[test]
fn rule_matches_exact_entry_does_not_match_subdomain() {
    let exact = entry("example.com", false, ListKind::Blocklist);
    assert!(rule_matches("example.com", &exact));
    assert!(!rule_matches("sub.example.com", &exact));
}

#[test]
fn decision_allowlist_wins_on_conflict() {
    let both = lists(vec![
        entry("example.com", false, ListKind::Allowlist),
        entry("example.com", false, ListKind::Blocklist),
    ]);
    assert_eq!(decide(&both, "example.com"), Some(ListKind::Allowlist));
}

#[test]
fn decision_is_none_when_no_rule_matches() {
    let one = lists(vec![entry("example.com", false, ListKind::Blocklist)]);
    assert_eq!(decide(&one, "other.com"), None);
}

#[test]
fn a_decision_is_made_on_the_canonical_spelling() {
    let one = lists(vec![entry("xn--e1afmkfd.example", true, ListKind::Blocklist)]);
    assert_eq!(
        decide(&one, "WWW.\u{43f}\u{440}\u{438}\u{43c}\u{435}\u{440}.Example."),
        Some(ListKind::Blocklist)
    );
    assert!(one.decision("bad..example").is_err());
}

#[test]
fn normalize_domain_encodes_lowers_and_drops_the_last_dot() {
    let Ok(name) = normalize_domain("B\u{fc}cher.EXAMPLE.") else {
        panic!("a valid name");
    };
    assert_eq!(name, "xn--bcher-kva.example");
    assert_eq!(canonical_name(&name), name);
    assert!(normalize_domain("bad..example").is_err());
}

#[test]
fn conflicts_reports_identical_domain_string_in_both_lists() {
    let both = lists(vec![
        entry("example.com", false, ListKind::Allowlist),
        entry("example.com", true, ListKind::Blocklist),
    ]);
    assert_eq!(both.conflicts(), vec!["example.com"]);
}

#[test]
fn conflicts_ignores_a_suffix_only_overlap() {
    let both = lists(vec![
        entry("example.com", true, ListKind::Allowlist),
        entry("sub.example.com", false, ListKind::Blocklist),
    ]);
    assert!(both.conflicts().is_empty());
}

#[test]
fn load_of_missing_file_returns_empty_lists_not_an_error() {
    let (lists, invalid) = match OverrideLists::load(OverridesFile::Missing) {
        Ok(result) => result,
        Err(err) => panic!("expected Ok: {}", err.message()),
    };
    assert_eq!(decide(&lists, "example.com"), None);
    assert!(invalid.is_empty());
}

#[test]
fn an_unreadable_file_is_an_error_of_its_own() {
    assert!(matches!(
        OverrideLists::load(OverridesFile::Unreadable),
        Err(OverrideError::Io)
    ));
}

#[test]
fn load_rejects_structurally_invalid_toml() {
    match OverrideLists::load(file("not valid toml ===")) {
        Err(OverrideError::Parse) => {}
        other => panic!("expected OverrideError::Parse, got {other:?}", other = other.is_ok()),
    }
}

#[test]
fn load_rejects_a_misspelled_top_level_key_instead_of_silently_dropping_that_list() {
    let toml = "allowlist = [\"example.com\"]\nblockList = [\"bad.example.com\"]\n";
    match OverrideLists::load(file(toml)) {
        Err(OverrideError::Parse) => {}
        other => panic!("expected OverrideError::Parse, got {other:?}", other = other.is_ok()),
    }
}

#[test]
fn load_error_display_never_contains_the_raw_toml_input() {
    let telltale = "sentinel-marker.broken.example";
    let toml = format!("blocklist = [\"{telltale}\n");
    let Err(err) = OverrideLists::load(file(&toml)) else {
        panic!("expected the malformed TOML to fail to load")
    };
    assert!(!err.message().contains(telltale));
    let debug_output = format!("{err:?}");
    assert!(!debug_output.contains(telltale));
}

#[test]
fn load_of_empty_file_and_single_key_file_still_succeeds() {
    for toml in ["", "allowlist = [\"example.com\"]\n"] {
        assert!(
            OverrideLists::load(file(toml)).is_ok(),
            "expected Ok for {toml:?}"
        );
    }
}

#[test]
fn load_normalizes_and_splits_mixed_exact_and_wildcard_entries() {
    let (lists, invalid) =
        load("allowlist = [\"Example.COM.\"]\nblocklist = [\"*.bad.example.net\"]\n");
    assert!(invalid.is_empty());
    assert_eq!(decide(&lists, "example.com"), Some(ListKind::Allowlist));
    assert_eq!(
        decide(&lists, "sub.bad.example.net"),
        Some(ListKind::Blocklist)
    );
}

#[test]
fn load_skips_one_invalid_domain_without_dropping_the_rest_of_the_list() {
    let (lists, invalid) =
        load("allowlist = []\nblocklist = [\"good.example.com\", \"*.*.broken.example\"]\n");
    assert_eq!(
        decide(&lists, "good.example.com"),
        Some(ListKind::Blocklist)
    );
    assert_eq!(invalid.len(), 1);
    assert_eq!(invalid[0].raw, "*.*.broken.example");
    assert_eq!(invalid[0].list, ListKind::Blocklist);
}

#[test]
fn invalid_entry_debug_output_never_contains_the_raw_pattern_text() {
    let telltale = "sentinel-marker.broken.example";
    let entry = InvalidEntry {
        raw: format!("*.*.{telltale}"),
        list: ListKind::Blocklist,
        reason: InvalidReason::UnexpectedWildcard,
    };
    let log_text = entry.log_text();
    assert!(
        !log_text.contains(telltale),
        "what is logged must not contain the raw pattern text: {log_text}"
    );
}

#[test]
fn changed_entries_of_identical_lists_is_empty() {
    let one = lists(vec![entry("example.com", false, ListKind::Blocklist)]);
    assert!(changed_entries(&one, &one).is_empty());
}

#[test]
fn changed_entries_detects_a_newly_added_entry() {
    let before = lists(vec![]);
    let added = entry("example.com", false, ListKind::Blocklist);
    let after = lists(vec![added.clone()]);
    assert_eq!(changed_entries(&before, &after), vec![&added]);
}

#[test]
fn changed_entries_detects_a_removed_entry() {
    let removed = entry("example.com", false, ListKind::Blocklist);
    let before = lists(vec![removed.clone()]);
    let after = lists(vec![]);
    assert_eq!(changed_entries(&before, &after), vec![&removed]);
}

#[test]
fn changed_entries_detects_an_entry_moved_between_lists() {
    let before_entry = entry("example.com", false, ListKind::Blocklist);
    let after_entry = entry("example.com", false, ListKind::Allowlist);
    let before = lists(vec![before_entry.clone()]);
    let after = lists(vec![after_entry.clone()]);
    let mut result = changed_entries(&before, &after);
    result.sort_by_key(|e| e.list == ListKind::Allowlist);
    assert_eq!(result, vec![&before_entry, &after_entry]);
}

#[test]
fn changed_entries_ignores_entries_present_in_both() {
    let kept = entry("kept.example.com", false, ListKind::Blocklist);
    let removed = entry("removed.example.com", false, ListKind::Blocklist);
    let added = entry("added.example.com", false, ListKind::Blocklist);
    let before = lists(vec![kept.clone(), removed.clone()]);
    let after = lists(vec![kept, added.clone()]);
    assert_eq!(changed_entries(&before, &after), vec![&removed, &added]);
}

#[test]
fn adding_twice_is_adding_once_and_removing_undoes_it() {
    let start = lists(vec![entry("kept.example", false, ListKind::Blocklist)]);
    let Ok(once) = start.with_entry_added("*.New.Example", ListKind::Allowlist) else {
        panic!("a valid pattern");
    };
    let Ok(twice) = once.with_entry_added("*.new.example.", ListKind::Allowlist) else {
        panic!("a valid pattern");
    };
    assert_eq!(once.entries().len(), 2);
    assert_eq!(twice.entries(), once.entries());
    let back = twice.with_entry_removed("new.example", true, ListKind::Allowlist);
    assert_eq!(back.entries(), start.entries());
}

#[test]
fn what_is_written_is_read_back_with_its_mistyped_lines() {
    let (lists, invalid) = load(
        "allowlist = [\"Good.example\", \"*.*.typo.example\"]\nblocklist = [\"*.bad.example\"]\n",
    );
    let OverridesFile::Lists {
        allowlist,
        blocklist,
    } = lists.save(&invalid)
    else {
        panic!("lists are written");
    };
    assert_eq!(allowlist, vec!["good.example", "*.*.typo.example"]);
    assert_eq!(blocklist, vec!["*.bad.example"]);
    let Ok((again, still_invalid)) = OverrideLists::load(OverridesFile::Lists {
        allowlist,
        blocklist,
    }) else {
        panic!("what was written is read back");
    };
    assert_eq!(again.entries(), lists.entries());
    assert_eq!(still_invalid.len(), 1);
    assert_eq!(still_invalid[0].raw, "*.*.typo.example");
    assert_eq!(still_invalid[0].list, ListKind::Allowlist);
}

#[test]
fn lists_and_reasons_have_names() {
    assert_eq!(ListKind::Allowlist.name(), "Allowlist");
    assert_eq!(
        InvalidReason::UnexpectedWildcard.name(),
        "UnexpectedWildcard"
    );
}
