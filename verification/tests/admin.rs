use dnsqb_service::admin::{
    credential_check, is_stale, overrides_view, providers_view, read_watchdog_view, unix_millis,
    AdminConfigUpdate, AdminStatusResponse, CacheConfigUpdate, CacheConfigView, HealthGeoip, MaxmindCredentialCheck,
    ProvidersResponse, WatchdogFile, WatchdogState, WatchdogStatusView,
};
use dnsqb_service::app_state::{
    AdminResetError, AppState, CacheState, GeoipInit, LoadedConfig, MaxmindStep, OverridesState,
    PersistPaths, PersistTarget, PipelineOutcome, QueryLogMeta, RuntimeInit,
};
use dnsqb_service::config::{
    timeout_ms, validate_country_code, CacheConfig, CacheConfigError, CacheConfigSecs,
    ConfigError, GeoipConfig, ResolverConfig, TimeoutConfig, TimeoutMode,
};
use dnsqb_service::geoip_credentials::{CredentialsError, LicenseKey, MaxmindCredentials};
use dnsqb_service::geoip_updater::{
    GeoipSource, GeoipState, GeoipUpdateError, MaxmindHealth, ProbeReply,
};
use dnsqb_service::http::Status;
use dnsqb_service::overrides::{
    InvalidReason, ListKind, OverrideEntry, OverrideError, OverrideLists, OverridesFile,
};
use dnsqb_service::paths::{file_in, FilePath};
use dnsqb_service::query_log::{
    Decision, DecisionSource, LogEntry, QueryLog, VoterRecord, VoterVerdict,
};
use dnsqb_service::upstream::{BlockSignature, ProviderAddRequest, ProviderEntry, ProviderSpec};
use dnsqb_service::{min_rrset_ttl, negative_cache_ttl, should_serve_stale, Record, SOA};

const NOW: i128 = 1_700_000_000_000_000_000;

/// The tests' state. The cache is a mark by which one is told from another, and
/// so are the client, the network and the baseline resolver.
type State = AppState<&'static str, u32, char, u8>;

fn status(state: &State, persisted: bool) -> AdminStatusResponse<char, u8, usize> {
    let blocked = |entries: &[LogEntry]| {
        entries
            .iter()
            .filter(|e| e.decision == Decision::Blocked)
            .count()
    };
    state.admin_status(NOW, blocked, None, persisted)
}

fn spec(id: &str) -> ProviderSpec {
    ProviderSpec {
        id: id.to_string(),
        display_name: id.to_string(),
        doh_url: format!("https://{id}.example/dns-query"),
        category: "SECURITY".to_string(),
        block_signature: BlockSignature::NullIpOrNxdomain,
    }
}

fn presets() -> Vec<ProviderSpec> {
    vec![spec("adguard"), spec("cloudflare-family"), spec("quad9")]
}

fn default_timeout() -> TimeoutConfig {
    TimeoutConfig {
        mode: TimeoutMode::FailOpen,
        duration_nanos: 2_000_000_000,
    }
}

fn persist(paths: bool) -> PersistTarget {
    PersistTarget {
        port: 8443,
        persist_query_log: false,
        persist_cache: false,
        paths: if paths {
            Some(PersistPaths {
                config: file_in("/data", "resolver_config.toml"),
                overrides: file_in("/data", "overrides.toml"),
            })
        } else {
            None
        },
    }
}

fn state_with_overrides_and_persist(overrides: OverridesState, persist: PersistTarget) -> State {
    AppState::new(
        "client",
        overrides,
        RuntimeInit::defaults(default_timeout(), &presets()),
        CacheState {
            cache: 1,
            config: CacheConfig::default(),
        },
        GeoipInit {
            database: GeoipState::default(),
            blocked_countries: Vec::new(),
            source: GeoipSource::DbIpLite,
        },
        QueryLog::default(),
        persist,
        'n',
        7,
    )
}

fn state_with_persist(persist: PersistTarget) -> State {
    state_with_overrides_and_persist(
        OverridesState {
            lists: OverrideLists::from_entries(Vec::new()),
            invalid: Vec::new(),
        },
        persist,
    )
}

fn state() -> State {
    state_with_persist(persist(false))
}

fn saved_state() -> State {
    state_with_persist(persist(true))
}

fn ids(entries: &[ProviderEntry]) -> Vec<String> {
    entries.iter().map(|e| e.spec.id.clone()).collect()
}

fn full_path(path: &FilePath) -> String {
    format!("{}/{}", path.parent.as_deref().unwrap_or(""), path.name)
}

#[test]
fn serve_admin_status_returns_the_default_live_settings() {
    let status = status(&state(), true);
    assert_eq!(status.active_providers, vec!["quad9", "adguard"]);
    assert!(status.persisted);
    assert!(!status.encrypted_persistence.query_log);
    assert!(!status.encrypted_persistence.cache);
    assert_eq!(status.stats.total, 0);
    assert_eq!(status.watchdog, None);
    assert_eq!(status.timeout_ms, 2_000);
    assert_eq!(status.port, 8443);
    assert_eq!(status.stats.in_flight, 0);
}

#[test]
fn the_status_shows_the_network_and_the_baseline_resolver_as_they_are() {
    let mut state = state();
    assert_eq!(*state.doh_client(), "client");
    assert_eq!(status(&state, true).network, 'n');
    assert_eq!(status(&state, true).baseline_endpoint, 7);
    state.update_reachability('m');
    state.update_baseline(8);
    assert_eq!(*state.reachability_snapshot(), 'm');
    assert_eq!(*state.baseline_snapshot(), 8);
    assert_eq!(status(&state, true).network, 'm');
    assert_eq!(status(&state, true).baseline_endpoint, 8);
}

#[test]
fn serve_admin_status_reports_the_persistence_flags_when_they_are_set() {
    let mut target = persist(false);
    target.persist_query_log = true;
    target.persist_cache = true;
    let status = status(&state_with_persist(target), true);
    assert!(status.encrypted_persistence.query_log);
    assert!(status.encrypted_persistence.cache);
}

const SECOND: i128 = 1_000_000_000;

/// After how many nanoseconds the watchdog's file is too old.
const STALE_AFTER: u64 = 60_000_000_000;

fn watchdog(state: WatchdogState) -> Option<WatchdogStatusView> {
    let file = WatchdogFile {
        modified: NOW,
        state: Some(state),
    };
    read_watchdog_view(Some(file), NOW, STALE_AFTER)
}

#[test]
fn read_watchdog_view_projects_the_ui_relevant_states() {
    for state in [WatchdogState::Restarting, WatchdogState::BackoffWait] {
        assert_eq!(
            watchdog(state),
            Some(WatchdogStatusView::Restarting),
            "{state:?} -> RESTARTING"
        );
    }
    assert_eq!(
        watchdog(WatchdogState::GaveUp),
        Some(WatchdogStatusView::GaveUp)
    );
}

#[test]
fn read_watchdog_view_hides_the_internal_states() {
    for state in [
        WatchdogState::Healthy,
        WatchdogState::ChannelDegraded,
        WatchdogState::SuspectDead,
        WatchdogState::VerifyingPid,
    ] {
        assert_eq!(watchdog(state), None, "{state:?} is an internal step");
    }
}

#[test]
fn read_watchdog_view_is_none_for_a_stale_file() {
    let file = WatchdogFile {
        modified: NOW,
        state: Some(WatchdogState::Restarting),
    };
    let long_after = NOW + 3600 * SECOND;
    assert_eq!(read_watchdog_view(Some(file), long_after, STALE_AFTER), None);
}

#[test]
fn a_file_is_stale_once_more_than_the_limit_has_passed() {
    assert!(!is_stale(NOW + 60 * SECOND, NOW, STALE_AFTER));
    assert!(is_stale(NOW + 60 * SECOND + 1, NOW, STALE_AFTER));
    assert!(
        !is_stale(NOW - SECOND, NOW, STALE_AFTER),
        "a clock that was set back makes nothing stale"
    );
    assert!(is_stale(i128::MAX, i128::MIN, u64::MAX));
    assert!(!is_stale(i128::MIN, i128::MAX, 0));
}

#[test]
fn read_watchdog_view_is_none_for_absent_missing_or_corrupt() {
    assert_eq!(read_watchdog_view(None, NOW, STALE_AFTER), None);
    let corrupt = WatchdogFile {
        modified: NOW,
        state: None,
    };
    assert_eq!(
        read_watchdog_view(Some(corrupt), NOW, STALE_AFTER),
        None,
        "a corrupt file must not panic or 500"
    );
}

#[test]
fn serve_health_returns_200_with_pipeline_status() {
    let health = state().serve_health();
    assert_eq!(health.active_providers, 2);
    assert_eq!(health.geoip, HealthGeoip::Absent);
}

fn update(timeout_mode: TimeoutMode, toggle: bool) -> AdminConfigUpdate {
    AdminConfigUpdate {
        timeout_mode,
        serve_baseline_when_filters_unreachable: toggle,
    }
}

#[test]
fn serve_admin_config_persists_a_change_to_disk_when_a_config_path_is_set() {
    let mut state = saved_state();
    let Some(save) = state.apply_admin_config(update(TimeoutMode::FailClosed, false)) else {
        panic!("a path is set");
    };
    assert_eq!(full_path(&save.path), "/data/resolver_config.toml");
    assert_eq!(save.config.timeout_mode, TimeoutMode::FailClosed);
    assert_eq!(ids(&save.config.providers), vec!["quad9", "adguard"]);
}

#[test]
fn serve_admin_config_round_trips_the_baseline_fallback_toggle() {
    let mut state = saved_state();
    let Some(save) = state.apply_admin_config(update(TimeoutMode::Degraded, true)) else {
        panic!("a path is set");
    };
    let status = status(&state, true);
    assert!(status.serve_baseline_when_filters_unreachable);
    assert_eq!(status.timeout_mode, TimeoutMode::Degraded);
    assert!(save.config.serve_baseline_when_filters_unreachable);
    assert_eq!(save.config.timeout_mode, TimeoutMode::Degraded);
    assert_eq!(ids(&save.config.providers), vec!["quad9", "adguard"]);
}

#[test]
fn serve_admin_config_preserves_persist_flags_on_an_unrelated_write() {
    let mut target = persist(true);
    target.persist_query_log = true;
    target.persist_cache = true;
    let mut state = state_with_persist(target);
    let Some(save) = state.apply_admin_config(update(TimeoutMode::FailClosed, false)) else {
        panic!("a path is set");
    };
    assert!(save.config.persist_query_log);
    assert!(save.config.persist_cache);
}

#[test]
fn serve_admin_config_does_not_wipe_a_preexisting_geoip_blocked_country_list() {
    let mut state = saved_state();
    state.update_geoip_countries(vec!["SE".to_string()]);
    let Some(save) = state.apply_admin_config(update(TimeoutMode::FailClosed, false)) else {
        panic!("a path is set");
    };
    assert_eq!(save.config.geoip.blocked_countries, vec!["SE".to_string()]);
}

#[test]
fn serve_admin_config_reports_not_persisted_when_no_config_path_is_set() {
    let mut state = state();
    assert!(state
        .apply_admin_config(update(TimeoutMode::FailOpen, false))
        .is_none());
}

fn non_default_cache_config_update() -> CacheConfigUpdate {
    CacheConfigUpdate {
        secs: CacheConfigSecs {
            clamp_min_secs: 45,
            clamp_max_secs: 1800,
            block_verdict_ttl_secs: 1800,
            stale_grace_secs: 43_200,
            max_capacity: 2_500,
        },
    }
}

fn non_default_cache() -> CacheState<u32> {
    match non_default_cache_config_update().into_config() {
        Ok(config) => CacheState { cache: 2, config },
        Err(_) => panic!("fixture cache update must be valid"),
    }
}

#[test]
fn serve_admin_cache_config_returns_the_default_live_settings() {
    let view = CacheConfigView::from_config(&state().cache.config, true);
    assert_eq!(view.secs.clamp_min_secs, 30);
    assert_eq!(view.secs.clamp_max_secs, 86_400);
    assert_eq!(view.secs.max_capacity, 10_000);
    assert!(view.persisted);
}

#[test]
fn serve_admin_cache_config_apply_updates_the_live_settings() {
    let mut state = state();
    assert!(state.apply_cache_config(non_default_cache()).is_none());
    assert_eq!(state.cache.cache, 2);
    assert_eq!(
        state.cache.config.to_secs(),
        non_default_cache_config_update().secs
    );
}

#[test]
fn serve_admin_cache_config_apply_rejects_an_inverted_clamp_range() {
    let mut inverted = non_default_cache_config_update();
    inverted.secs.clamp_min_secs = 100;
    inverted.secs.clamp_max_secs = 10;
    assert_eq!(
        inverted.into_config(),
        Err(CacheConfigError::ClampMinExceedsMax)
    );
}

#[test]
fn serve_admin_cache_config_apply_persists_a_change_to_disk_when_a_config_path_is_set() {
    let mut state = saved_state();
    let Some(save) = state.apply_cache_config(non_default_cache()) else {
        panic!("a path is set");
    };
    let secs = save.config.cache.to_secs();
    assert_eq!(secs.clamp_min_secs, 45);
    assert_eq!(secs.max_capacity, 2_500);
}

#[test]
fn serve_admin_cache_config_apply_does_not_wipe_a_preexisting_geoip_blocked_country_list() {
    let mut state = saved_state();
    state.update_geoip_countries(vec!["DE".to_string()]);
    let Some(save) = state.apply_cache_config(non_default_cache()) else {
        panic!("a path is set");
    };
    assert_eq!(save.config.geoip.blocked_countries, vec!["DE".to_string()]);
}

#[test]
fn serve_admin_geoip_returns_the_current_list() {
    let mut state = state();
    state.update_geoip_countries(vec!["SE".to_string(), "DE".to_string()]);
    let body = state.geoip_view(true);
    assert_eq!(
        body.blocked_countries,
        vec!["SE".to_string(), "DE".to_string()]
    );
    assert!(body.persisted);
}

#[test]
fn serve_admin_geoip_reports_no_database_loaded_when_none_is_configured() {
    let body = state().geoip_view(true);
    assert!(!body.database_loaded);
    assert_eq!(body.database_built_at_ms, None);
    assert_eq!(body.database_type, None);
}

#[test]
fn serve_admin_geoip_add_appends_a_new_country_and_it_is_visible_on_the_next_get() {
    let mut state = state();
    let Ok(save) = state.serve_admin_geoip_add("SE") else {
        panic!("a valid code");
    };
    assert!(save.is_none());
    assert_eq!(
        state.geoip_view(false).blocked_countries,
        vec!["SE".to_string()]
    );
}

#[test]
fn serve_admin_geoip_add_normalizes_a_lowercase_code_to_uppercase() {
    let mut state = state();
    assert!(state.serve_admin_geoip_add("se").is_ok());
    assert_eq!(state.geoip_countries, vec!["SE".to_string()]);
}

#[test]
fn serve_admin_geoip_add_is_idempotent_for_an_already_present_country() {
    let mut state = state();
    state.update_geoip_countries(vec!["SE".to_string()]);
    assert!(state.serve_admin_geoip_add("SE").is_ok());
    assert_eq!(state.geoip_countries, vec!["SE".to_string()]);
}

#[test]
fn serve_admin_geoip_add_rejects_an_invalid_code() {
    let mut state = state();
    assert!(matches!(
        state.serve_admin_geoip_add("RUS"),
        Err(ConfigError::InvalidCountryCode)
    ));
    assert!(state.geoip_countries.is_empty());
}

#[test]
fn serve_admin_geoip_remove_removes_the_matching_country() {
    let mut state = state();
    state.update_geoip_countries(vec!["SE".to_string(), "DE".to_string()]);
    assert!(state.serve_admin_geoip_remove("SE").is_ok());
    assert_eq!(state.geoip_countries, vec!["DE".to_string()]);
}

#[test]
fn serve_admin_geoip_remove_accepts_a_lowercase_code_matching_the_stored_uppercase_entry() {
    let mut state = state();
    state.update_geoip_countries(vec!["SE".to_string()]);
    assert!(state.serve_admin_geoip_remove("se").is_ok());
    assert!(state.geoip_countries.is_empty());
}

#[test]
fn serve_admin_geoip_remove_rejects_an_invalid_code() {
    let mut state = state();
    state.update_geoip_countries(vec!["SE".to_string()]);
    assert!(state.serve_admin_geoip_remove("Sweden").is_err());
    assert_eq!(state.geoip_countries, vec!["SE".to_string()]);
}

#[test]
fn serve_admin_geoip_add_persists_a_change_to_disk_when_a_config_path_is_set() {
    let mut state = saved_state();
    let Ok(Some(save)) = state.serve_admin_geoip_add("SE") else {
        panic!("a path is set");
    };
    assert_eq!(save.config.geoip.blocked_countries, vec!["SE".to_string()]);
}

#[test]
fn serve_admin_geoip_add_does_not_wipe_preexisting_providers_and_cache_config() {
    let mut state = saved_state();
    state.apply_admin_config(update(TimeoutMode::FailClosed, false));
    state.apply_cache_config(non_default_cache());
    let Ok(Some(save)) = state.serve_admin_geoip_add("SE") else {
        panic!("a path is set");
    };
    assert_eq!(ids(&save.config.providers), vec!["quad9", "adguard"]);
    assert_eq!(save.config.timeout_mode, TimeoutMode::FailClosed);
    assert_eq!(
        save.config.cache.to_secs(),
        non_default_cache_config_update().secs
    );
}

fn providers(state: &State) -> ProvidersResponse {
    providers_view(&state.providers, &presets(), true)
}

fn by_id(id: &str) -> ProviderAddRequest {
    ProviderAddRequest {
        id: id.to_string(),
        url: None,
        display_name: None,
        category: None,
        block_signature: None,
    }
}

fn described(id: &str, url: &str, name: &str, category: &str) -> ProviderAddRequest {
    ProviderAddRequest {
        id: id.to_string(),
        url: Some(url.to_string()),
        display_name: Some(name.to_string()),
        category: Some(category.to_string()),
        block_signature: None,
    }
}

#[test]
fn serve_admin_providers_lists_the_default_two_and_every_preset() {
    let body = providers(&saved_state());
    let active_ids: Vec<&str> = body.active.iter().map(|p| p.spec.id.as_str()).collect();
    assert_eq!(active_ids, vec!["quad9", "adguard"]);
    assert!(body.active.iter().all(|p| p.is_builtin && p.enabled));
    assert_eq!(body.available_presets.len(), presets().len());
    assert_eq!(body.third_party_count, 3, "2 voters + baseline");
}

#[test]
fn serve_admin_providers_add_a_preset_then_it_is_active_and_persisted() {
    let mut state = saved_state();
    let request = by_id("cloudflare-family");
    let Ok(Some(save)) = state.serve_admin_providers_add(request, &presets(), true, false) else {
        panic!("a preset is added");
    };
    let body = providers(&state);
    assert!(body
        .active
        .iter()
        .any(|p| p.spec.id == "cloudflare-family" && p.enabled));
    assert_eq!(body.third_party_count, 4);
    assert!(save
        .config
        .providers
        .iter()
        .any(|e| e.spec.id == "cloudflare-family"));
}

#[test]
fn serve_admin_providers_add_a_custom_https_endpoint() {
    let mut state = saved_state();
    let url = "https://abc123.dns.nextdns.io/dns-query";
    let request = described("my-nextdns", url, "NextDNS", "SECURITY");
    assert!(state
        .serve_admin_providers_add(request, &presets(), true, true)
        .is_ok());
    let body = providers(&state);
    let Some(custom) = body.active.iter().find(|p| p.spec.id == "my-nextdns") else {
        panic!("the custom entry must be in the active list");
    };
    assert!(!custom.is_builtin);
    assert_eq!(custom.spec.doh_url, url);
    assert!(matches!(
        custom.spec.block_signature,
        BlockSignature::NullIpOrNxdomain
    ));
}

#[test]
fn serve_admin_providers_add_rejects_ssrf_and_duplicate_and_bad_id() {
    let mut state = saved_state();
    let evil = described("evil", "https://127.0.0.1/dns-query", "x", "SECURITY");
    for (request, id_is_valid, url_is_valid) in [
        (evil, true, false),
        (by_id("quad9"), true, false),
        (by_id("Bad Id"), false, false),
        (by_id("mystery"), true, false),
        (by_id("mystery"), true, true),
    ] {
        assert!(matches!(
            state.serve_admin_providers_add(request, &presets(), id_is_valid, url_is_valid),
            Err(Status::BadRequest)
        ));
    }
    assert_eq!(ids(&state.providers), vec!["quad9", "adguard"]);
}

#[test]
fn serve_admin_providers_remove_a_custom_entry_but_not_a_builtin() {
    let mut state = saved_state();
    let url = "https://dns.controld.com/x";
    let request = described("my-controld", url, "ControlD", "ADS_TRACKERS");
    assert!(state
        .serve_admin_providers_add(request, &presets(), true, true)
        .is_ok());
    // A builtin can't be removed.
    assert!(matches!(
        state.serve_admin_providers_remove("quad9", &presets()),
        Err(Status::BadRequest)
    ));
    // The custom one can.
    assert!(state
        .serve_admin_providers_remove("my-controld", &presets())
        .is_ok());
    assert_eq!(ids(&state.providers), vec!["quad9", "adguard"]);
    assert!(matches!(
        state.serve_admin_providers_remove("my-controld", &presets()),
        Err(Status::BadRequest)
    ));
}

#[test]
fn serve_admin_providers_set_enabled_toggles_and_status_reflects_it() {
    let mut state = saved_state();
    assert!(state
        .serve_admin_providers_set_enabled("quad9", false)
        .is_ok());
    let body = providers(&state);
    assert!(body
        .active
        .iter()
        .any(|p| p.spec.id == "quad9" && !p.enabled));
    assert_eq!(body.third_party_count, 2, "only adguard + baseline now");
    assert_eq!(
        status(&state, true).active_providers,
        vec!["adguard"]
    );
    assert!(matches!(
        state.serve_admin_providers_set_enabled("nobody", true),
        Err(Status::BadRequest)
    ));
}

#[test]
fn no_voter_is_shown_as_no_filtering() {
    let mut state = state();
    for id in ["quad9", "adguard"] {
        assert!(state.serve_admin_providers_set_enabled(id, false).is_ok());
    }
    let body = providers(&state);
    assert!(!body.filtering_active);
    assert_eq!(body.third_party_count, 1, "baseline only");
    assert_eq!(state.serve_health().active_providers, 0);
}

fn rule(domain: &str, list: ListKind) -> OverrideEntry {
    OverrideEntry {
        domain: domain.to_string(),
        is_wildcard: false,
        list,
    }
}

fn state_with_rules(rules: Vec<OverrideEntry>) -> State {
    state_with_overrides_and_persist(
        OverridesState {
            lists: OverrideLists::from_entries(rules),
            invalid: Vec::new(),
        },
        persist(false),
    )
}

#[test]
fn serve_admin_overrides_returns_the_current_lists_and_conflicts() {
    let state = state_with_rules(vec![
        rule("example.com", ListKind::Allowlist),
        rule("example.com", ListKind::Blocklist),
    ]);
    let body = overrides_view(&state.overrides.lists, true);
    assert_eq!(body.allowlist.len(), 1);
    assert_eq!(body.blocklist.len(), 1);
    assert_eq!(body.conflicts, vec!["example.com".to_string()]);
}

#[test]
fn serve_admin_overrides_add_appends_a_new_entry_and_it_is_visible_on_the_next_get() {
    let mut state = state();
    let Ok(change) = state.serve_admin_overrides_add("example.com", ListKind::Blocklist) else {
        panic!("a valid pattern");
    };
    assert!(change.save.is_none());
    let body = overrides_view(&state.overrides.lists, false);
    assert_eq!(body.blocklist.len(), 1);
    assert_eq!(body.blocklist[0].domain, "example.com");
    assert!(!body.blocklist[0].is_wildcard);
    assert!(!body.persisted);
}

#[test]
fn serve_admin_overrides_add_rejects_an_invalid_pattern() {
    let mut state = state();
    assert!(matches!(
        state.serve_admin_overrides_add("*.*.broken.example", ListKind::Blocklist),
        Err(InvalidReason::UnexpectedWildcard)
    ));
    assert!(state.overrides.lists.entries().is_empty());
}

#[test]
fn serve_admin_overrides_remove_removes_the_matching_entry() {
    let mut state = state_with_rules(vec![rule("example.com", ListKind::Blocklist)]);
    let change = state.serve_admin_overrides_remove("example.com", false, ListKind::Blocklist);
    assert_eq!(change.changed.len(), 1);
    assert!(overrides_view(&state.overrides.lists, false)
        .blocklist
        .is_empty());
    let again = state.serve_admin_overrides_remove("example.com", false, ListKind::Blocklist);
    assert!(again.changed.is_empty());
}

#[test]
fn serve_admin_overrides_add_persists_and_preserves_a_pre_existing_invalid_line() {
    let Ok((lists, invalid)) = OverrideLists::load(OverridesFile::Lists {
        allowlist: Vec::new(),
        blocklist: vec![
            "already-here.test".to_string(),
            "*.*.broken.example".to_string(),
        ],
    }) else {
        panic!("fixture file must load");
    };
    assert_eq!(invalid.len(), 1, "fixture must contain one invalid line");
    let mut state =
        state_with_overrides_and_persist(OverridesState { lists, invalid }, persist(true));
    let Ok(change) = state.serve_admin_overrides_add("new.example.com", ListKind::Allowlist) else {
        panic!("a valid pattern");
    };
    let Some(path) = change.save else {
        panic!("a real path is set, so this must persist");
    };
    assert_eq!(full_path(&path), "/data/overrides.toml");
    let written = state.overrides.lists.save(&state.overrides.invalid);
    let Ok((reloaded, reloaded_invalid)) = OverrideLists::load(written) else {
        panic!("the saved file must load back");
    };
    assert!(matches!(
        reloaded.decision("already-here.test"),
        Ok(Some(ListKind::Blocklist))
    ));
    assert!(matches!(
        reloaded.decision("new.example.com"),
        Ok(Some(ListKind::Allowlist))
    ));
    assert_eq!(reloaded_invalid.len(), 1);
    assert_eq!(reloaded_invalid[0].raw, "*.*.broken.example");
}

#[test]
fn serve_admin_overrides_add_invalidates_a_cached_verdict_for_the_newly_blocked_domain() {
    let mut state = state();
    let Ok(change) = state.serve_admin_overrides_add("cache-inval.test", ListKind::Blocklist)
    else {
        panic!("a valid pattern");
    };
    assert_eq!(
        change.changed,
        vec![rule("cache-inval.test", ListKind::Blocklist)]
    );
}

#[test]
fn adding_one_override_after_another_loses_none() {
    let mut state = saved_state();
    let domains = ["a.example.com", "b.example.com", "c.example.com"];
    for domain in domains {
        assert!(state
            .serve_admin_overrides_add(domain, ListKind::Blocklist)
            .is_ok());
    }
    for domain in domains {
        assert!(matches!(
            state.overrides.lists.decision(domain),
            Ok(Some(ListKind::Blocklist))
        ));
    }
}

fn loaded(port: u16) -> LoadedConfig<u32> {
    LoadedConfig {
        config: ResolverConfig {
            port,
            timeout_mode: TimeoutMode::FailClosed,
            timeout_ms: 3000,
            providers: vec![
                ProviderEntry {
                    spec: spec("quad9"),
                    enabled: false,
                },
                ProviderEntry {
                    spec: spec("adguard"),
                    enabled: true,
                },
            ],
            cache: non_default_cache().config,
            geoip: GeoipConfig {
                blocked_countries: vec!["SE".to_string()],
            },
            serve_baseline_when_filters_unreachable: true,
            persist_query_log: false,
            persist_cache: false,
        },
        cache: 7,
    }
}

fn meta(domain: &str) -> QueryLogMeta {
    QueryLogMeta {
        domain: domain.to_string(),
        qtype: 1,
        decision: Decision::Allowed,
        decision_source: DecisionSource::Quorum,
        voters: Vec::new(),
        geoip_country: None,
        resolved_ip_country: None,
    }
}

#[test]
fn serve_admin_reset_returns_500_with_no_app_data_configured() {
    let mut state = state();
    let lists = OverrideLists::load(OverridesFile::Missing);
    assert_eq!(
        state.apply_admin_reset(Ok(None), Ok(loaded(8443)), lists),
        Err(AdminResetError::NoAppData)
    );
}

#[test]
fn serve_admin_reset_returns_500_for_a_malformed_overrides_file_and_leaves_state_untouched() {
    let mut state = saved_state();
    assert_eq!(
        state.apply_admin_reset(
            Ok(None),
            Ok(loaded(8443)),
            OverrideLists::load(OverridesFile::Malformed)
        ),
        Err(AdminResetError::Overrides(OverrideError::Parse))
    );
    assert_eq!(state.cache.cache, 1);
    assert_eq!(state.runtime.timeout, default_timeout());
    assert!(state.providers.iter().all(|p| p.enabled));
    assert!(!state.geoip_wake);
}

#[test]
fn settings_that_cannot_be_read_leave_the_state_untouched() {
    let mut state = saved_state();
    assert_eq!(
        state.apply_admin_reset(
            Ok(None),
            Err(ConfigError::Parse),
            OverrideLists::load(OverridesFile::Missing)
        ),
        Err(AdminResetError::Config(ConfigError::Parse))
    );
    assert_eq!(state.cache.cache, 1);
}

#[test]
fn serve_admin_reset_reloads_settings_and_clears_state() {
    let mut state = saved_state();
    state.resolve_doh_request(PipelineOutcome::Response(Some(meta("example.com"))), NOW, 0);
    assert_eq!(state.query_log_snapshot(NOW).len(), 1);
    let lists = OverrideLists::load(OverridesFile::Lists {
        allowlist: Vec::new(),
        blocklist: vec!["reset-fixture.test".to_string(), "*.*.typo".to_string()],
    });
    let Ok(notes) = state.apply_admin_reset(Ok(None), Ok(loaded(8443)), lists) else {
        panic!("everything could be read");
    };
    assert_eq!(notes.invalid, 1);
    assert!(!notes.port_differs);
    assert!(!notes.source_kept);
    let status = status(&state, true);
    assert_eq!(status.active_providers, vec!["adguard"]);
    assert_eq!(status.timeout_mode, TimeoutMode::FailClosed);
    assert_eq!(status.timeout_ms, 3000);
    assert_eq!(status.stats.total, 0, "reset must clear the query log");
    assert!(state.query_log_snapshot(NOW).is_empty());
    assert!(matches!(
        state.overrides.lists.decision("reset-fixture.test"),
        Ok(Some(ListKind::Blocklist))
    ));
    assert_eq!(state.cache.cache, 7);
}

#[test]
fn serve_admin_reset_reloads_cache_config_from_the_fixture_file() {
    let mut state = saved_state();
    let lists = OverrideLists::load(OverridesFile::Missing);
    assert!(state
        .apply_admin_reset(Ok(None), Ok(loaded(8443)), lists)
        .is_ok());
    assert_eq!(
        state.cache.config.to_secs(),
        non_default_cache_config_update().secs
    );
    assert_eq!(state.geoip_countries, vec!["SE".to_string()]);
}

#[test]
fn a_reset_never_moves_the_listener() {
    let mut state = saved_state();
    let lists = OverrideLists::load(OverridesFile::Missing);
    let Ok(notes) = state.apply_admin_reset(Ok(None), Ok(loaded(9000)), lists) else {
        panic!("everything could be read");
    };
    assert!(notes.port_differs);
    assert_eq!(state.live_config().port, 8443);
}

fn credentials(account: &str) -> MaxmindCredentials {
    MaxmindCredentials {
        account_id: account.to_string(),
        license_key: LicenseKey::new("super-secret-license-key-value".to_string()),
    }
}

#[test]
fn admin_reset_picks_up_a_credentials_change_and_wakes_the_updater() {
    let mut state = saved_state();
    assert!(matches!(
        state.geoip_source_snapshot(),
        GeoipSource::DbIpLite
    ));
    let lists = OverrideLists::load(OverridesFile::Missing);
    assert!(state
        .apply_admin_reset(Ok(Some(credentials("acct-42"))), Ok(loaded(8443)), lists)
        .is_ok());
    assert!(matches!(
        state.geoip_source_snapshot(),
        GeoipSource::Maxmind(_)
    ));
    assert!(state.take_geoip_wake());
    assert!(!state.take_geoip_wake());
    let lists = OverrideLists::load(OverridesFile::Missing);
    let Ok(notes) =
        state.apply_admin_reset(Err(CredentialsError::KeyStore), Ok(loaded(8443)), lists)
    else {
        panic!("everything else could be read");
    };
    assert!(notes.source_kept);
    assert!(matches!(
        state.geoip_source_snapshot(),
        GeoipSource::Maxmind(_)
    ));
}

#[test]
fn what_a_reset_reads_is_what_a_change_wrote() {
    let mut state = saved_state();
    state.update_geoip_countries(vec!["DE".to_string()]);
    let Some(save) = state.apply_admin_config(update(TimeoutMode::Degraded, true)) else {
        panic!("a path is set");
    };
    let mut other = saved_state();
    let lists = OverrideLists::load(OverridesFile::Missing);
    assert!(other
        .apply_admin_reset(
            Ok(None),
            Ok(LoadedConfig {
                config: save.config,
                cache: 3
            }),
            lists
        )
        .is_ok());
    assert_eq!(other.runtime, state.runtime);
    assert_eq!(other.geoip_countries, state.geoip_countries);
    assert_eq!(ids(&other.providers), ids(&state.providers));
}

#[test]
fn update_geoip_source_is_visible_on_the_next_snapshot() {
    let mut state = state();
    assert!(matches!(
        state.geoip_source_snapshot(),
        GeoipSource::DbIpLite
    ));
    state.update_geoip_source(GeoipSource::Maxmind(credentials("acct")));
    assert!(matches!(
        state.geoip_source_snapshot(),
        GeoipSource::Maxmind(_)
    ));
}

#[test]
fn wake_geoip_refresh_leaves_a_permit_on_the_handle_the_updater_parks_on() {
    let mut state = state();
    state.wake_geoip_refresh();
    assert!(state.take_geoip_wake());
}

#[test]
fn maxmind_health_starts_not_applicable_and_tracks_source_changes() {
    let mut state = state();
    assert_eq!(
        state.maxmind_health_snapshot(),
        MaxmindHealth::NotApplicable
    );
    state.update_geoip_source(GeoipSource::Maxmind(credentials("acct")));
    assert_eq!(state.maxmind_health_snapshot(), MaxmindHealth::Pending);
    state.update_maxmind_health(MaxmindHealth::AuthRejected);
    assert_eq!(state.maxmind_health_snapshot(), MaxmindHealth::AuthRejected);
    state.update_geoip_source(GeoipSource::DbIpLite);
    assert_eq!(
        state.maxmind_health_snapshot(),
        MaxmindHealth::NotApplicable
    );
}

#[test]
fn geoip_source_snapshot_debug_never_contains_the_license_key() {
    let mut state = state();
    state.update_geoip_source(GeoipSource::Maxmind(credentials("acct")));
    let text = state.geoip_source_snapshot().log_text();
    assert!(!text.contains("super-secret-license-key-value"));
    assert!(!text.contains("license-key-value"));
    assert!(
        text.contains("acct"),
        "the non-secret field is fine to show"
    );
}

#[test]
fn maxmind_get_reports_not_configured_on_a_fresh_state() {
    let view = saved_state().maxmind_view(Ok(None), true);
    assert!(!view.configured);
    assert_eq!(view.account_id, None);
    assert_eq!(view.check, MaxmindCredentialCheck::Skipped);
}

#[test]
fn maxmind_get_echoes_the_account_id_after_a_save_and_never_the_key() {
    let view = saved_state().maxmind_view(Ok(Some(credentials("acct-987"))), true);
    assert!(view.configured);
    assert_eq!(view.account_id.as_deref(), Some("acct-987"));
    let shown = format!("{view:?}");
    assert!(!shown.contains("super-secret") && !shown.contains("license"));
}

#[test]
fn maxmind_post_with_a_blank_field_is_400_before_any_probe() {
    let step = saved_state().serve_admin_geoip_maxmind("acct".to_string(), "   ".to_string());
    assert!(matches!(step, MaxmindStep::Refuse(Status::BadRequest)));
}

#[test]
fn a_blank_field_is_refused_without_a_directory_too() {
    for (account, key) in [("acct", "   "), ("", "key"), ("", "")] {
        let step = state().serve_admin_geoip_maxmind(account.to_string(), key.to_string());
        assert!(matches!(step, MaxmindStep::Refuse(Status::BadRequest)));
    }
}

#[test]
fn a_refresh_says_nothing_of_a_source_that_was_set_meanwhile() {
    let mut state = saved_state();
    let asked = GeoipSource::Maxmind(credentials("acct"));
    state.update_geoip_source(asked.clone());
    state.update_geoip_source(GeoipSource::Maxmind(credentials("other")));
    state.record_refresh(&asked, &Err(GeoipUpdateError::MaxmindAuthRejected));
    assert_eq!(state.maxmind_health_snapshot(), MaxmindHealth::Pending);
    state.update_geoip_source(asked.clone());
    state.record_refresh(&asked, &Err(GeoipUpdateError::MaxmindAuthRejected));
    assert_eq!(state.maxmind_health_snapshot(), MaxmindHealth::AuthRejected);
    state.update_geoip_source(GeoipSource::DbIpLite);
    state.record_refresh(&asked, &Ok(()));
    assert_eq!(
        state.maxmind_health_snapshot(),
        MaxmindHealth::NotApplicable
    );
}

#[test]
fn a_change_is_persisted_where_there_is_a_directory_and_the_write_went_well() {
    assert!(saved_state().persisted(true));
    assert!(!saved_state().persisted(false));
    assert!(!state().persisted(true));
    assert!(!state().persisted(false));
}

#[test]
fn maxmind_credentials_are_stored_then_used_then_probed() {
    let mut state = saved_state();
    let step = state.serve_admin_geoip_maxmind("acct".to_string(), "key".to_string());
    let MaxmindStep::Store(found) = step else {
        panic!("good credentials are stored");
    };
    let step = state.maxmind_stored("acct".to_string(), true, Ok(Some(found)));
    assert!(matches!(step, MaxmindStep::Probe));
    assert!(state.take_geoip_wake());
    assert_eq!(state.maxmind_health_snapshot(), MaxmindHealth::Pending);
    for (reply, check) in [
        (
            Some(ProbeReply::Status(200)),
            MaxmindCredentialCheck::Verified,
        ),
        (
            Some(ProbeReply::Status(403)),
            MaxmindCredentialCheck::Rejected,
        ),
        (
            Some(ProbeReply::TimedOut),
            MaxmindCredentialCheck::Unverified,
        ),
        (None, MaxmindCredentialCheck::Unverified),
    ] {
        let view = state.maxmind_probed("acct".to_string(), reply);
        assert!(view.configured);
        assert!(view.persisted);
        assert_eq!(view.check, check);
    }
}

#[test]
fn maxmind_credentials_that_cannot_be_stored_are_not_used() {
    let mut state = saved_state();
    let step = state.maxmind_stored("acct".to_string(), false, Ok(None));
    assert!(matches!(step, MaxmindStep::Reply(view) if !view.configured && !view.persisted));
    assert!(!state.take_geoip_wake());
    let step = self::state().serve_admin_geoip_maxmind("acct".to_string(), "key".to_string());
    assert!(matches!(step, MaxmindStep::Reply(view) if !view.persisted));
}

#[test]
fn maxmind_clear_removes_the_credentials_and_reports_not_configured() {
    let mut state = saved_state();
    state.update_geoip_source(GeoipSource::Maxmind(credentials("acct")));
    let view = state.serve_admin_geoip_maxmind_clear(true);
    assert!(!view.configured);
    assert!(
        view.persisted,
        "removing existing credentials must report persisted"
    );
    assert!(matches!(
        state.geoip_source_snapshot(),
        GeoipSource::DbIpLite
    ));
    assert!(!state.maxmind_view(Ok(None), true).configured);
    assert!(!self::state().serve_admin_geoip_maxmind_clear(true).persisted);
}

#[test]
fn a_check_of_credentials_is_summed_up() {
    assert_eq!(credential_check(&Ok(())), MaxmindCredentialCheck::Verified);
    assert_eq!(
        credential_check(&Err(GeoipUpdateError::MaxmindAuthRejected)),
        MaxmindCredentialCheck::Rejected
    );
    assert_eq!(
        credential_check(&Err(GeoipUpdateError::Timeout)),
        MaxmindCredentialCheck::Unverified
    );
}

#[test]
fn resolve_doh_request_leaves_in_flight_at_zero_after_completing() {
    let mut state = state();
    assert!(state.begin_query(&query_bytes()));
    assert_eq!(state.in_flight, 1);
    assert!(state.enter_query(true));
    assert_eq!(state.in_flight, 2);
    state.end_query();
    state.end_query();
    assert_eq!(state.in_flight, 0);
}

/// A query for the addresses of `example.com`.
fn query_bytes() -> Vec<u8> {
    let mut bytes = vec![0x12, 0x34, 0x01, 0x00, 0, 1, 0, 0, 0, 0, 0, 0];
    bytes.extend_from_slice(b"\x07example\x03com\x00");
    bytes.extend_from_slice(&[0, 1, 0, 1]);
    bytes
}

#[test]
fn what_is_no_message_is_never_in_flight() {
    let mut state = state();
    let whole = query_bytes();
    assert!(!state.begin_query(b"not a dns message"));
    assert!(!state.begin_query(&[]));
    assert!(!state.begin_query(&whole[..11]));
    assert!(!state.begin_query(&whole[..whole.len() - 1]));
    assert!(!state.enter_query(false));
    assert_eq!(state.in_flight, 0);
}

#[test]
fn resolve_doh_request_pushes_a_log_entry_for_a_resolved_a_query() {
    let mut state = state();
    let outcome = PipelineOutcome::Response(Some(meta("example.com")));
    assert!(!state.resolve_doh_request(outcome, NOW, 12_999_999));
    let entries = state.query_log_snapshot(NOW);
    assert_eq!(entries.len(), 1, "exactly one query must have been logged");
    assert_eq!(entries[0].domain, "example.com");
    assert_eq!(entries[0].decision, Decision::Allowed);
    assert_eq!(entries[0].decision_source, DecisionSource::Quorum);
    assert_eq!(entries[0].latency_ms, 12);
    assert_eq!(status(&state, true).stats.total, 1);
}

#[test]
fn a_voter_that_timed_out_reaches_the_log() {
    let mut state = state();
    let mut meta = meta("example.com");
    meta.decision_source = DecisionSource::BaselineFallback;
    meta.voters = vec![VoterRecord {
        provider_id: "quad9".to_string(),
        verdict: VoterVerdict::Timeout,
        allow_ip_count: None,
        error_message: None,
    }];
    state.resolve_doh_request(PipelineOutcome::Response(Some(meta)), NOW, 0);
    let entries = state.query_log_snapshot(NOW);
    assert_eq!(entries[0].voters[0].verdict, VoterVerdict::Timeout);
}

#[test]
fn resolve_doh_request_does_not_log_a_proxied_non_a_aaaa_query() {
    let mut state = state();
    assert!(state.resolve_doh_request(PipelineOutcome::ProxyToSingleUpstream, NOW, 0));
    assert!(!state.resolve_doh_request(PipelineOutcome::Response(None), NOW, 0));
    assert!(state.query_log_snapshot(NOW).is_empty());
}

#[test]
fn serve_admin_log_clear_actually_empties_the_log() {
    let mut state = state();
    let outcome = PipelineOutcome::Response(Some(meta("to-be-cleared.example")));
    state.resolve_doh_request(outcome, NOW, 0);
    assert_eq!(state.query_log_snapshot(NOW).len(), 1);
    state.clear_log();
    assert!(state.query_log_snapshot(NOW).is_empty());
}

#[test]
fn serve_admin_shutdown_returns_200_and_signals_the_watch_channel() {
    let mut state = state();
    assert!(!state.shutdown_handle(), "must start unsignaled");
    state.request_shutdown();
    assert!(state.shutdown_handle(), "signaled value must be true");
    state.request_shutdown();
    assert!(state.shutdown_handle());
}

#[test]
fn a_settings_file_in_no_directory_stands_for_itself() {
    let paths = PersistPaths {
        config: FilePath {
            parent: None,
            name: "resolver_config.toml".to_string(),
        },
        overrides: file_in("/data", "overrides.toml"),
    };
    assert_eq!(paths.app_data_dir(), "resolver_config.toml");
}

#[test]
fn settings_are_checked_and_numbers_kept_in_range() {
    let config = |port, timeout_ms| {
        let mut config = loaded(port).config;
        config.timeout_ms = timeout_ms;
        config.checked()
    };
    assert!(matches!(config(0, 1), Err(ConfigError::ZeroPort)));
    assert!(matches!(config(1, 0), Err(ConfigError::ZeroTimeout)));
    assert!(config(1, 1).is_ok());
    assert_eq!(timeout_ms(1_999_999), 1);
    assert_eq!(timeout_ms(u128::MAX), u32::MAX);
    assert_eq!(unix_millis(1_700_000_000), 1_700_000_000_000);
    assert_eq!(unix_millis(u64::MAX), u64::MAX);
    assert!(matches!(validate_country_code("ua"), Ok(code) if code == "UA"));
    assert!(validate_country_code("U1").is_err());
}

#[test]
fn times_to_live_are_the_smallest_of_their_records() {
    assert_eq!(
        min_rrset_ttl(&[Record { ttl: 300 }, Record { ttl: 60 }]),
        Some(60)
    );
    assert_eq!(min_rrset_ttl(&[]), None);
    assert_eq!(negative_cache_ttl(&SOA { minimum: 900 }), 900);
    assert!(should_serve_stale(true, true, true));
    assert!(!should_serve_stale(false, true, true));
    assert!(!should_serve_stale(true, false, true));
    assert!(!should_serve_stale(true, true, false));
}
