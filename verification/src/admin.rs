//! What the administration requests ask for, and what they are told.
use vstd::prelude::*;
use crate::config::{CacheConfig, CacheConfigError, CacheConfigSecs, TimeoutMode};
use crate::geoip_updater::{GeoipUpdateError, MaxmindHealth};
use crate::overrides;
use crate::overrides::{ListKind, OverrideLists};
use crate::text;
use crate::upstream;
use crate::upstream::{ProviderEntry, ProviderSpec};

verus! {

/// A change of settings.
#[derive(Debug, Clone, Copy, PartialEq, Eq, Structural)]
pub struct AdminConfigUpdate {
    /// What a late voter counts as.
    pub timeout_mode: TimeoutMode,
    /// Whether the baseline's answer is served where no voter can be reached.
    pub serve_baseline_when_filters_unreachable: bool,
}

/// What the indicator shows of the watchdog.
#[derive(Debug, Clone, Copy, PartialEq, Eq, Structural)]
pub enum WatchdogStatusView {
    /// The service is being restarted.
    Restarting,
    /// The watchdog has given up.
    GaveUp,
}

/// The state that the watchdog is in.
#[derive(Debug, Clone, Copy, PartialEq, Eq, Structural)]
pub enum WatchdogState {
    /// All is well.
    Healthy,
    /// One of the ways to reach the service fails.
    ChannelDegraded,
    /// The service may be gone.
    SuspectDead,
    /// It is being found out whether the service is gone.
    VerifyingPid,
    /// The service is being restarted.
    Restarting,
    /// The next restart is waited for.
    BackoffWait,
    /// No more restarts are made.
    GaveUp,
}

/// What is known of the watchdog's state file.
#[derive(Debug, Clone, Copy, PartialEq, Eq, Structural)]
pub struct WatchdogFile {
    /// When it was written, in nanoseconds after the Unix epoch.
    pub modified: i128,
    /// What it says, if that can be read.
    pub state: Option<WatchdogState>,
}

/// What the indicator shows of a state. Those that only the watchdog itself
/// needs are not shown.
pub open spec fn shown(state: WatchdogState) -> Option<WatchdogStatusView> {
    match state {
        WatchdogState::Restarting | WatchdogState::BackoffWait => Some(
            WatchdogStatusView::Restarting,
        ),
        WatchdogState::GaveUp => Some(WatchdogStatusView::GaveUp),
        _ => None,
    }
}

/// Whether something that was written at one time is too old at another: more
/// than `stale_after` nanoseconds have passed.
pub fn is_stale(now: i128, modified: i128, stale_after: u64) -> (stale: bool)
    ensures
        stale == (now - modified > stale_after),
{
    match now.checked_sub(modified) {
        Some(age) => age > stale_after as i128,
        None => now > modified,
    }
}

/// What the indicator shows of the watchdog at `now`, given its state file. A
/// file that is not there, cannot be read or was written more than `stale_after`
/// nanoseconds ago shows nothing.
pub fn read_watchdog_view(file: Option<WatchdogFile>, now: i128, stale_after: u64) -> (view: Option<
    WatchdogStatusView,
>)
    ensures
        view == match file {
            Some(f) => if now - f.modified > stale_after {
                None
            } else {
                match f.state {
                    Some(state) => shown(state),
                    None => None,
                }
            },
            None => None,
        },
{
    match file {
        None => None,
        Some(file) => {
            if is_stale(now, file.modified, stale_after) {
                return None;
            }
            match file.state {
                None => None,
                Some(state) => match state {
                    WatchdogState::Restarting | WatchdogState::BackoffWait => Some(
                        WatchdogStatusView::Restarting,
                    ),
                    WatchdogState::GaveUp => Some(WatchdogStatusView::GaveUp),
                    WatchdogState::Healthy
                    | WatchdogState::ChannelDegraded
                    | WatchdogState::SuspectDead
                    | WatchdogState::VerifyingPid => None,
                },
            }
        },
    }
}

/// What is kept on disk.
#[derive(Debug, Clone, Copy, PartialEq, Eq, Structural)]
pub struct EncryptedPersistenceView {
    /// Whether the query log is.
    pub query_log: bool,
    /// Whether the cache is.
    pub cache: bool,
}

/// What is told of the queries.
#[derive(Debug)]
pub struct AdminStats<S> {
    /// How many are being answered.
    pub in_flight: u64,
    /// How many answered ones the log holds.
    pub total: usize,
    /// What else the log says of them.
    pub log: S,
}

/// The state of the service.
#[derive(Debug)]
pub struct AdminStatusResponse<N, B, S> {
    /// The identifiers of the voters that are asked, in order.
    pub active_providers: Vec<String>,
    /// What a late voter counts as.
    pub timeout_mode: TimeoutMode,
    /// How long voters are waited for, in milliseconds.
    pub timeout_ms: u32,
    /// Whether the baseline's answer is served where no voter can be reached.
    pub serve_baseline_when_filters_unreachable: bool,
    /// The port that the service listens on.
    pub port: u16,
    /// What is known of the network.
    pub network: N,
    /// Which baseline resolver is in use.
    pub baseline_endpoint: B,
    /// What is told of the queries.
    pub stats: AdminStats<S>,
    /// What the indicator shows of the watchdog.
    pub watchdog: Option<WatchdogStatusView>,
    /// Whether the settings on disk are those in use.
    pub persisted: bool,
    /// What is kept on disk.
    pub encrypted_persistence: EncryptedPersistenceView,
}

/// The identifier of a voter.
pub open spec fn id_of() -> spec_fn(ProviderEntry) -> Seq<char> {
    |entry: ProviderEntry| entry.spec.id@
}

/// The identifiers of the voters that are asked.
pub fn active_ids(entries: &[ProviderEntry]) -> (ids: Vec<String>)
    ensures
        text::texts(ids@) == entries@.filter(upstream::asked()).map_values(id_of()),
{
    let mut ids: Vec<String> = Vec::new();
    let mut i: usize = 0;
    proof {
        reveal(Seq::filter);
        assert(text::texts(ids@) =~= entries@.take(0).filter(upstream::asked()).map_values(
            id_of(),
        ));
    }
    while i < entries.len()
        invariant
            i <= entries@.len(),
            text::texts(ids@) == entries@.take(i as int).filter(upstream::asked()).map_values(
                id_of(),
            ),
        decreases entries@.len() - i,
    {
        let ghost before = ids@;
        proof {
            let entry = entries@[i as int];
            let kept = entries@.take(i as int).filter(upstream::asked());
            assert(entries@.take(i + 1) =~= entries@.take(i as int).push(entry));
            entries@.take(i as int).lemma_filter_push(entry, upstream::asked());
            assert(kept.push(entry).map_values(id_of()) =~= kept.map_values(id_of()).push(
                entry.spec.id@,
            ));
        }
        if entries[i].enabled {
            ids.push(entries[i].spec.id.clone());
            assert(text::texts(ids@) =~= text::texts(before).push(entries@[i as int].spec.id@));
        }
        i = i + 1;
    }
    assert(entries@.take(i as int) =~= entries@);
    ids
}

/// Whether there is a country database.
#[derive(Debug, Clone, Copy, PartialEq, Eq, Structural)]
pub enum HealthGeoip {
    /// There is one.
    Loaded,
    /// There is none.
    Absent,
}

/// What the service says of its health. That it says anything is what counts.
#[derive(Debug, Clone, Copy, PartialEq, Eq, Structural)]
pub struct HealthResponse {
    /// How many voters are asked. None at all is fine.
    pub active_providers: usize,
    /// Whether there is a country database.
    pub geoip: HealthGeoip,
}

/// A change of the settings of the cache.
#[derive(Debug, Clone, Copy, PartialEq, Eq, Structural)]
pub struct CacheConfigUpdate {
    /// The new settings.
    pub secs: CacheConfigSecs,
}

impl CacheConfigUpdate {
    /// The settings, unless the shortest time is longer than the longest.
    pub fn into_config(self) -> (r: Result<CacheConfig, CacheConfigError>)
        ensures
            match r {
                Ok(config) => config@ == self.secs && self.secs.clamp_min_secs
                    <= self.secs.clamp_max_secs,
                Err(e) => self.secs.clamp_min_secs > self.secs.clamp_max_secs && e
                    == CacheConfigError::ClampMinExceedsMax,
            },
    {
        CacheConfig::new(self.secs)
    }
}

/// The settings of the cache.
#[derive(Debug, Clone, Copy, PartialEq, Eq, Structural)]
pub struct CacheConfigView {
    /// The settings in use.
    pub secs: CacheConfigSecs,
    /// Whether the settings on disk are those in use.
    pub persisted: bool,
}

impl CacheConfigView {
    /// The settings of the cache.
    pub fn from_config(config: &CacheConfig, persisted: bool) -> (view: Self)
        ensures
            view == (CacheConfigView { secs: config@, persisted }),
    {
        CacheConfigView { secs: config.to_secs(), persisted }
    }
}

/// A domain of an override list.
#[derive(Debug)]
pub struct OverrideDomainView {
    /// The domain.
    pub domain: String,
    /// Whether the names below it are covered too.
    pub is_wildcard: bool,
}

/// The override lists.
#[derive(Debug)]
pub struct OverrideListsResponse {
    /// What is always allowed.
    pub allowlist: Vec<OverrideDomainView>,
    /// What is always blocked.
    pub blocklist: Vec<OverrideDomainView>,
    /// The domains that both lists hold.
    pub conflicts: Vec<String>,
    /// Whether the lists on disk are those in use.
    pub persisted: bool,
}

/// What is shown of a rule.
pub open spec fn domain_view() -> spec_fn(overrides::OverrideRule) -> (Seq<char>, bool) {
    |rule: overrides::OverrideRule| (rule.domain, rule.is_wildcard)
}

/// What some domains show.
pub open spec fn domains_shown(views: Seq<OverrideDomainView>) -> Seq<(Seq<char>, bool)> {
    views.map_values(|v: OverrideDomainView| (v.domain@, v.is_wildcard))
}

/// What is shown of one list.
pub open spec fn list_shown(rules: Seq<overrides::OverrideRule>, list: ListKind) -> Seq<
    (Seq<char>, bool),
> {
    rules.filter(overrides::of_list(list)).map_values(domain_view())
}

fn view_of(lists: &OverrideLists, list: ListKind) -> (views: Vec<OverrideDomainView>)
    ensures
        domains_shown(views@) == list_shown(lists@, list),
{
    let entries = lists.entries();
    let mut views: Vec<OverrideDomainView> = Vec::new();
    let mut i: usize = 0;
    proof {
        reveal(Seq::filter);
        assert(domains_shown(views@) =~= list_shown(lists@.take(0), list));
    }
    while i < entries.len()
        invariant
            i <= entries@.len(),
            lists@ == overrides::rules_of(entries@),
            domains_shown(views@) == list_shown(lists@.take(i as int), list),
        decreases entries@.len() - i,
    {
        let ghost before = views@;
        proof {
            let rule = lists@[i as int];
            let kept = lists@.take(i as int).filter(overrides::of_list(list));
            assert(lists@.take(i + 1) =~= lists@.take(i as int).push(rule));
            lists@.take(i as int).lemma_filter_push(rule, overrides::of_list(list));
            assert(kept.push(rule).map_values(domain_view()) =~= kept.map_values(
                domain_view(),
            ).push((rule.domain, rule.is_wildcard)));
        }
        if entries[i].list == list {
            views.push(
                OverrideDomainView {
                    domain: entries[i].domain.clone(),
                    is_wildcard: entries[i].is_wildcard,
                },
            );
            assert(domains_shown(views@) =~= domains_shown(before).push(
                (entries@[i as int].domain@, entries@[i as int].is_wildcard),
            ));
        }
        i = i + 1;
    }
    assert(lists@.take(i as int) =~= lists@);
    views
}

/// What is shown of the override lists.
pub fn overrides_view(lists: &OverrideLists, persisted: bool) -> (view: OverrideListsResponse)
    ensures
        domains_shown(view.allowlist@) == list_shown(lists@, ListKind::Allowlist),
        domains_shown(view.blocklist@) == list_shown(lists@, ListKind::Blocklist),
        text::texts(view.conflicts@) == overrides::conflicting(lists@),
        view.persisted == persisted,
{
    let found = lists.conflicts();
    let mut conflicts: Vec<String> = Vec::new();
    let mut i: usize = 0;
    while i < found.len()
        invariant
            i <= found@.len(),
            conflicts@.len() == i,
            forall|j: int| 0 <= j < i ==> (#[trigger] conflicts@[j])@ == found@[j]@,
        decreases found@.len() - i,
    {
        conflicts.push(found[i].to_owned());
        i = i + 1;
    }
    assert(text::texts(conflicts@) =~= found@.map_values(|d: &str| d@));
    OverrideListsResponse {
        allowlist: view_of(lists, ListKind::Allowlist),
        blocklist: view_of(lists, ListKind::Blocklist),
        conflicts,
        persisted,
    }
}

/// The country filter.
#[derive(Debug)]
pub struct GeoipCountriesResponse {
    /// The blocked countries.
    pub blocked_countries: Vec<String>,
    /// Whether the list on disk is the one in use.
    pub persisted: bool,
    /// Whether there is a database.
    pub database_loaded: bool,
    /// When it was built, in milliseconds since the Unix epoch, if that is
    /// known.
    pub database_built_at_ms: Option<u64>,
    /// The type that it gives itself.
    pub database_type: Option<String>,
}

/// Seconds in milliseconds, as far as `u64` goes.
pub open spec fn millis(seconds: u64) -> u64 {
    if seconds * 1000 > u64::MAX {
        u64::MAX
    } else {
        (seconds * 1000) as u64
    }
}

/// Seconds in milliseconds, as far as `u64` goes.
pub fn unix_millis(seconds: u64) -> (ms: u64)
    ensures
        ms == millis(seconds),
{
    match seconds.checked_mul(1000) {
        Some(ms) => ms,
        None => u64::MAX,
    }
}

/// What a probe said of the MaxMind credentials.
#[derive(Debug, Clone, Copy, PartialEq, Eq, Structural)]
pub enum MaxmindCredentialCheck {
    /// There was none.
    Skipped,
    /// They are accepted.
    Verified,
    /// They are refused.
    Rejected,
    /// Nothing.
    Unverified,
}

/// What a probe says of credentials: only a refusal is something that other
/// credentials would mend.
pub open spec fn check_of(result: Result<(), GeoipUpdateError>) -> MaxmindCredentialCheck {
    match result {
        Ok(_) => MaxmindCredentialCheck::Verified,
        Err(GeoipUpdateError::MaxmindAuthRejected) => MaxmindCredentialCheck::Rejected,
        Err(_) => MaxmindCredentialCheck::Unverified,
    }
}

/// What a probe says of credentials.
pub fn credential_check(result: &Result<(), GeoipUpdateError>) -> (check: MaxmindCredentialCheck)
    ensures
        check == check_of(*result),
{
    match result {
        Ok(()) => MaxmindCredentialCheck::Verified,
        Err(GeoipUpdateError::MaxmindAuthRejected) => MaxmindCredentialCheck::Rejected,
        Err(_) => MaxmindCredentialCheck::Unverified,
    }
}

/// The MaxMind credentials. There is no place in it for the license key.
#[derive(Debug)]
pub struct MaxmindCredentialsView {
    /// Whether there are any.
    pub configured: bool,
    /// The account.
    pub account_id: Option<String>,
    /// What a probe said of them.
    pub check: MaxmindCredentialCheck,
    /// How the last refresh with them went.
    pub refresh_health: MaxmindHealth,
    /// Whether they are stored.
    pub persisted: bool,
}

/// What is shown of a voter.
#[derive(Debug)]
pub struct ProviderView {
    /// The voter.
    pub spec: ProviderSpec,
    /// Whether it is asked.
    pub enabled: bool,
    /// Whether it is a preset.
    pub is_builtin: bool,
}

/// The voters.
#[derive(Debug)]
pub struct ProvidersResponse {
    /// The voters of the list.
    pub active: Vec<ProviderView>,
    /// The presets.
    pub available_presets: Vec<ProviderView>,
    /// How many others learn which names are asked for: the voters that are
    /// asked, and the baseline.
    pub third_party_count: usize,
    /// Whether anything is filtered at all.
    pub filtering_active: bool,
    /// Whether the list on disk is the one in use.
    pub persisted: bool,
}

/// What is shown of the voters.
pub fn providers_view(entries: &[ProviderEntry], presets: &[ProviderSpec], persisted: bool) -> (view:
    ProvidersResponse)
    requires
        entries@.len() < usize::MAX,
    ensures
        view.active@.len() == entries@.len(),
        forall|i: int|
            0 <= i < entries@.len() ==> (#[trigger] view.active@[i]).spec == entries@[i].spec
                && view.active@[i].enabled == entries@[i].enabled && view.active@[i].is_builtin
                == upstream::is_preset(presets@, entries@[i].spec.id@),
        view.available_presets@.len() == presets@.len(),
        forall|i: int|
            0 <= i < presets@.len() ==> (#[trigger] view.available_presets@[i]) == (ProviderView {
                spec: presets@[i],
                enabled: false,
                is_builtin: true,
            }),
        view.third_party_count == upstream::enabled_count(entries@) + 1,
        view.filtering_active == (upstream::enabled_count(entries@) > 0),
        view.persisted == persisted,
{
    let enabled_count: usize = upstream::count_enabled(entries);
    let mut active: Vec<ProviderView> = Vec::new();
    let mut i: usize = 0;
    while i < entries.len()
        invariant
            i <= entries@.len(),
            active@.len() == i,
            forall|j: int|
                0 <= j < i ==> (#[trigger] active@[j]).spec == entries@[j].spec
                    && active@[j].enabled == entries@[j].enabled && active@[j].is_builtin
                    == upstream::is_preset(presets@, entries@[j].spec.id@),
        decreases entries@.len() - i,
    {
        let spec = entries[i].spec.clone();
        let is_builtin = upstream::builtin_preset(presets, spec.id.as_str()).is_some();
        active.push(ProviderView { spec, enabled: entries[i].enabled, is_builtin });
        i = i + 1;
    }
    let mut available_presets: Vec<ProviderView> = Vec::new();
    let mut k: usize = 0;
    while k < presets.len()
        invariant
            k <= presets@.len(),
            available_presets@.len() == k,
            forall|j: int|
                0 <= j < k ==> (#[trigger] available_presets@[j]) == (ProviderView {
                    spec: presets@[j],
                    enabled: false,
                    is_builtin: true,
                }),
        decreases presets@.len() - k,
    {
        available_presets.push(
            ProviderView { spec: presets[k].clone(), enabled: false, is_builtin: true },
        );
        k = k + 1;
    }
    ProvidersResponse {
        active,
        available_presets,
        third_party_count: enabled_count + 1,
        filtering_active: enabled_count > 0,
        persisted,
    }
}

/// The indicator shows that the service is being restarted while it is, and while
/// the next restart is waited for; that the watchdog gave up where it did; and
/// nothing else.
pub proof fn law_what_the_indicator_shows(state: WatchdogState)
    ensures
        shown(state) == Some(WatchdogStatusView::Restarting) <==> state
            == WatchdogState::Restarting || state == WatchdogState::BackoffWait,
        shown(state) == Some(WatchdogStatusView::GaveUp) <==> state == WatchdogState::GaveUp,
{
}

/// A voter is shown by its identifier.
pub proof fn law_voters_are_shown_by_their_identifiers(entry: ProviderEntry)
    ensures
        id_of()(entry) == entry.spec.id@,
{
}

/// A list is shown by the rules of that list alone, in order, each by its domain
/// and whether the names below it are covered.
pub proof fn law_how_a_list_is_shown(
    rules: Seq<overrides::OverrideRule>,
    list: ListKind,
    belongs: spec_fn(overrides::OverrideRule) -> bool,
    i: int,
)
    requires
        forall|rule: overrides::OverrideRule| #[trigger] belongs(rule) <==> rule.list == list,
    ensures
        list_shown(rules, list).len() == rules.filter(belongs).len(),
        0 <= i < rules.filter(belongs).len() ==> list_shown(rules, list)[i].0 == rules.filter(
            belongs,
        )[i].domain,
        0 <= i < rules.filter(belongs).len() ==> list_shown(rules, list)[i].1 == rules.filter(
            belongs,
        )[i].is_wildcard,
{
    assert(overrides::of_list(list) =~= belongs);
}

/// A list of which there is no rule is shown empty.
pub proof fn law_a_list_without_rules_is_shown_empty(
    rules: Seq<overrides::OverrideRule>,
    list: ListKind,
)
    requires
        forall|i: int| 0 <= i < rules.len() ==> (#[trigger] rules[i]).list != list,
    ensures
        list_shown(rules, list).len() == 0,
    decreases rules.len(),
{
    reveal(Seq::filter);
    if rules.len() > 0 {
        let rest = rules.drop_last();
        assert forall|i: int| 0 <= i < rest.len() implies (#[trigger] rest[i]).list != list by {
            assert(rest[i] == rules[i]);
        }
        law_a_list_without_rules_is_shown_empty(rest, list);
        assert(rules[rules.len() - 1].list != list);
    }
}

/// What is shown of domains is what each of them holds, in order.
pub proof fn law_domains_are_shown_one_by_one(views: Seq<OverrideDomainView>, i: int)
    ensures
        domains_shown(views).len() == views.len(),
        0 <= i < views.len() ==> domains_shown(views)[i].0 == views[i].domain@,
        0 <= i < views.len() ==> domains_shown(views)[i].1 == views[i].is_wildcard,
{
}

/// A second has a thousand milliseconds, as far as 64 bits go.
pub proof fn law_seconds_in_milliseconds(seconds: u64)
    ensures
        millis(seconds) == seconds * 1000 || (millis(seconds) == u64::MAX && seconds * 1000
            > u64::MAX),
{
}

/// Credentials are verified where a probe succeeds and rejected where it was told
/// that they are wrong; another failure says nothing of them.
pub proof fn law_what_a_probe_says(result: Result<(), GeoipUpdateError>)
    ensures
        check_of(result) == MaxmindCredentialCheck::Verified <==> result is Ok,
        check_of(result) == MaxmindCredentialCheck::Rejected <==> (result matches Err(e) && e
            is MaxmindAuthRejected),
        check_of(result) == MaxmindCredentialCheck::Unverified <==> (result matches Err(e) && !(e
            is MaxmindAuthRejected)),
{
}

} // verus!
