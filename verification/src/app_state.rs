//! What the service knows while it runs, and every change of it.
//!
//! A change is made here first and written to disk afterwards: each change says
//! what is to be written, and what is written is always all of the settings as
//! they then are. A change that could not be written stays in force and is
//! reported as not persisted.
use vstd::prelude::*;
use crate::admin;
use crate::admin::{
    AdminConfigUpdate, AdminStats, AdminStatusResponse, EncryptedPersistenceView, GeoipCountriesResponse,
    HealthGeoip, HealthResponse, MaxmindCredentialCheck, MaxmindCredentialsView,
    WatchdogStatusView,
};
use crate::config;
use crate::config::{
    CacheConfig, ConfigError, GeoipConfig, ResolverConfig, TimeoutConfig,
};
use crate::geoip;
use crate::geoip_credentials;
use crate::geoip_credentials::{CredentialsError, MaxmindCredentials};
use crate::geoip_updater;
use crate::geoip_updater::{
    GeoipSource, GeoipState, GeoipUpdateError, MaxmindHealth, ProbeReply,
};
use crate::http::Status;
use crate::overrides;
use crate::overrides::{
    changed_entries, InvalidEntry, InvalidReason, ListKind, OverrideEntry, OverrideError,
    OverrideLists,
};
use crate::paths::FilePath;
use crate::query_log;
use crate::query_log::{Decision, DecisionSource, LogEntry, QueryLog, VoterRecord};
use crate::text;
use crate::upstream;
use crate::upstream::{ProviderAddRequest, ProviderEntry, ProviderSpec};
use crate::wire;

verus! {

/// Settings that an administration request changes.
#[derive(Debug, Clone, Copy, PartialEq, Eq, Structural)]
pub struct RuntimeSettings {
    /// How long voters are waited for.
    pub timeout: TimeoutConfig,
    /// Whether the baseline's answer is served where no voter can be reached.
    pub serve_baseline_when_filters_unreachable: bool,
}

/// Settings that the service starts with.
#[derive(Debug)]
pub struct RuntimeInit {
    /// How long voters are waited for.
    pub timeout: TimeoutConfig,
    /// Whether the baseline's answer is served where no voter can be reached.
    pub serve_baseline_when_filters_unreachable: bool,
    /// The voters, in order.
    pub providers: Vec<ProviderEntry>,
}

impl RuntimeInit {
    /// The settings of a new installation, given the default timeout and the
    /// presets.
    pub fn defaults(timeout: TimeoutConfig, presets: &[ProviderSpec]) -> (init: Self)
        ensures
            init.timeout == timeout,
            !init.serve_baseline_when_filters_unreachable,
            init.providers@ == upstream::default_set(presets@),
    {
        RuntimeInit {
            timeout,
            serve_baseline_when_filters_unreachable: false,
            providers: ProviderEntry::default_active_set(presets),
        }
    }
}

/// The two files that settings are written to. They are in one directory.
#[derive(Debug)]
pub struct PersistPaths {
    /// The settings file.
    pub config: FilePath,
    /// The file of the override lists.
    pub overrides: FilePath,
}

impl PersistPaths {
    /// The directory that the files are in. A settings file that is in none
    /// stands for itself, so that the result is never shared by accident.
    pub fn app_data_dir(&self) -> (dir: String)
        ensures
            dir@ == match self.config.parent {
                Some(parent) => parent@,
                None => self.config.name@,
            },
    {
        match &self.config.parent {
            Some(parent) => parent.clone(),
            None => self.config.name.clone(),
        }
    }
}

/// Where changes are written to, and the settings that no request changes.
#[derive(Debug)]
pub struct PersistTarget {
    /// The port that the service listens on.
    pub port: u16,
    /// Whether the query log is kept on disk.
    pub persist_query_log: bool,
    /// Whether the cache is kept on disk.
    pub persist_cache: bool,
    /// The files, if there is a directory for them.
    pub paths: Option<PersistPaths>,
}

/// The override lists, and what stands in their file but is not understood. It
/// is kept so that it can be written back as it was.
pub struct OverridesState {
    /// The lists.
    pub lists: OverrideLists,
    /// The patterns that were not accepted.
    pub invalid: Vec<InvalidEntry>,
}

/// A cache, and the settings that it was made with. Both change together.
pub struct CacheState<K> {
    /// The cache.
    pub cache: K,
    /// Its settings.
    pub config: CacheConfig,
}

/// What the country filter starts with.
pub struct GeoipInit {
    /// The database.
    pub database: GeoipState,
    /// The blocked countries.
    pub blocked_countries: Vec<String>,
    /// Where the database comes from.
    pub source: GeoipSource,
}

/// Everything that the service knows while it runs. What asks resolvers, the
/// cache, what is known of the network and which baseline resolver is in use are
/// kept here and not looked into.
pub struct AppState<C, K, N, B> {
    /// What asks resolvers.
    pub client: C,
    /// The override lists.
    pub overrides: OverridesState,
    /// The settings that requests change.
    pub runtime: RuntimeSettings,
    /// The voters, in order.
    pub providers: Vec<ProviderEntry>,
    /// The cache.
    pub cache: CacheState<K>,
    /// The country database. Only a refresh changes it.
    pub geoip: GeoipState,
    /// The blocked countries. A refresh never changes them.
    pub geoip_countries: Vec<String>,
    /// Where the database comes from.
    pub geoip_source: GeoipSource,
    /// Whether the next refresh is to start at once.
    pub geoip_wake: bool,
    /// How the last refresh from MaxMind went.
    pub maxmind_health: MaxmindHealth,
    /// What is known of the network.
    pub reachability: N,
    /// Which baseline resolver is in use.
    pub baseline: B,
    /// The answered queries.
    pub query_log: QueryLog,
    /// Where changes are written to.
    pub persist: PersistTarget,
    /// How many queries are being answered.
    pub in_flight: u64,
    /// Whether the service is asked to stop.
    pub shutdown: bool,
}

/// Settings that are to be written to their file.
pub struct Save {
    /// The file.
    pub path: FilePath,
    /// The settings.
    pub config: ResolverConfig,
}

/// Why the settings could not be read again.
#[derive(Debug, Clone, Copy, PartialEq, Eq, Structural)]
pub enum AdminResetError {
    /// There is no directory to read them from.
    NoAppData,
    /// The settings file could not be read.
    Config(ConfigError),
    /// The file of the override lists could not be read.
    Overrides(OverrideError),
}

/// Settings that were read, and a new cache that was made with them.
pub struct LoadedConfig<K> {
    /// The settings.
    pub config: ResolverConfig,
    /// The cache.
    pub cache: K,
}

/// What is worth a warning after the settings were read again.
#[derive(Debug, Clone, Copy, PartialEq, Eq, Structural)]
pub struct ResetNotes {
    /// How many patterns of the override lists were not accepted.
    pub invalid: usize,
    /// Whether the file names another port than the one in use. It is never
    /// taken over.
    pub port_differs: bool,
    /// Whether the stored credentials could not be read.
    pub source_kept: bool,
}

/// The source that stored credentials stand for.
pub open spec fn source_from(
    credentials: Result<Option<MaxmindCredentials>, CredentialsError>,
    current: GeoipSource,
) -> GeoipSource {
    match credentials {
        Ok(Some(found)) => GeoipSource::Maxmind(found),
        Ok(None) => GeoipSource::DbIpLite,
        Err(_) => current,
    }
}

/// A state with settings that were read from disk, and a cache that was made
/// with them. The port and what is kept on disk stay as they are.
pub open spec fn with_config<C, K, N, B>(
    state: AppState<C, K, N, B>,
    config: ResolverConfig,
    cache: K,
) -> AppState<C, K, N, B> {
    AppState {
        runtime: RuntimeSettings {
            timeout: TimeoutConfig {
                mode: config.timeout_mode,
                duration_nanos: (config.timeout_ms * config::NANOS_PER_MILLI) as u128,
            },
            serve_baseline_when_filters_unreachable: config.serve_baseline_when_filters_unreachable,
        },
        providers: config.providers,
        cache: CacheState { cache, config: config.cache },
        geoip_countries: config.geoip.blocked_countries,
        ..state
    }
}

impl<C, K, N, B> AppState<C, K, N, B> {
    /// That the log is within its bounds.
    pub open spec fn wf(&self) -> bool {
        self.query_log.wf()
    }

    /// The settings as they are, in the form that is written to disk.
    pub open spec fn live(&self) -> config::Settings {
        config::Settings {
            port: self.persist.port,
            timeout_mode: self.runtime.timeout.mode,
            timeout_ms: config::whole_millis(self.runtime.timeout.duration_nanos),
            providers: self.providers@,
            cache: self.cache.config@,
            blocked_countries: text::texts(self.geoip_countries@),
            serve_baseline_when_filters_unreachable:
                self.runtime.serve_baseline_when_filters_unreachable,
            persist_query_log: self.persist.persist_query_log,
            persist_cache: self.persist.persist_cache,
        }
    }

    /// Whether what is to be written is all of the settings as they are, to
    /// the settings file, or nothing where there is no directory for it.
    pub open spec fn writes(&self, save: Option<Save>) -> bool {
        match (self.persist.paths, save) {
            (None, None) => true,
            (Some(paths), Some(s)) => s.path == paths.config && s.config@ == self.live(),
            _ => false,
        }
    }

    /// What the service starts with.
    pub fn new(
        client: C,
        overrides: OverridesState,
        runtime: RuntimeInit,
        cache: CacheState<K>,
        geoip: GeoipInit,
        query_log: QueryLog,
        persist: PersistTarget,
        reachability: N,
        baseline: B,
    ) -> (state: Self)
        ensures
            state == (AppState {
                client,
                overrides,
                runtime: RuntimeSettings {
                    timeout: runtime.timeout,
                    serve_baseline_when_filters_unreachable:
                        runtime.serve_baseline_when_filters_unreachable,
                },
                providers: runtime.providers,
                cache,
                geoip: geoip.database,
                geoip_countries: geoip.blocked_countries,
                geoip_source: geoip.source,
                geoip_wake: false,
                maxmind_health: geoip_updater::fresh_health(geoip.source),
                reachability,
                baseline,
                query_log,
                persist,
                in_flight: 0,
                shutdown: false,
            }),
    {
        let maxmind_health = geoip_updater::initial_health(&geoip.source);
        AppState {
            client,
            overrides,
            runtime: RuntimeSettings {
                timeout: runtime.timeout,
                serve_baseline_when_filters_unreachable:
                    runtime.serve_baseline_when_filters_unreachable,
            },
            providers: runtime.providers,
            cache,
            geoip: geoip.database,
            geoip_countries: geoip.blocked_countries,
            geoip_source: geoip.source,
            geoip_wake: false,
            maxmind_health,
            reachability,
            baseline,
            query_log,
            persist,
            in_flight: 0,
            shutdown: false,
        }
    }

    /// Takes a new country database into use.
    pub fn update_geoip(&mut self, new: GeoipState)
        ensures
            *final(self) == (AppState { geoip: new, ..*old(self) }),
    {
        self.geoip = new;
    }

    /// Takes a new list of blocked countries into use.
    pub fn update_geoip_countries(&mut self, blocked_countries: Vec<String>)
        ensures
            *final(self) == (AppState { geoip_countries: blocked_countries, ..*old(self) }),
    {
        self.geoip_countries = blocked_countries;
    }

    /// Where the database comes from.
    pub fn geoip_source_snapshot(&self) -> (source: GeoipSource)
        ensures
            source == self.geoip_source,
    {
        self.geoip_source.clone()
    }

    /// Takes a new source into use. What is known of the old one's health is
    /// forgotten.
    pub fn update_geoip_source(&mut self, source: GeoipSource)
        ensures
            *final(self) == (AppState {
                geoip_source: source,
                maxmind_health: geoip_updater::fresh_health(source),
                ..*old(self)
            }),
    {
        self.maxmind_health = geoip_updater::initial_health(&source);
        self.geoip_source = source;
    }

    /// How the last refresh from MaxMind went.
    pub fn maxmind_health_snapshot(&self) -> (health: MaxmindHealth)
        ensures
            health == self.maxmind_health,
    {
        self.maxmind_health
    }

    /// Records how a refresh from MaxMind went.
    pub fn update_maxmind_health(&mut self, health: MaxmindHealth)
        ensures
            *final(self) == (AppState { maxmind_health: health, ..*old(self) }),
    {
        self.maxmind_health = health;
    }

    /// Records how a refresh from `source` went. Where another source was set
    /// meanwhile, the refresh says nothing of that one.
    pub fn record_refresh(
        &mut self,
        source: &GeoipSource,
        outcome: &Result<(), GeoipUpdateError>,
    )
        ensures
            *final(self) == if geoip_updater::same_source_as(*source, old(self).geoip_source) {
                AppState {
                    maxmind_health: geoip_updater::health_after(
                        *source,
                        old(self).maxmind_health,
                        *outcome,
                    ),
                    ..*old(self)
                }
            } else {
                *old(self)
            },
    {
        if geoip_updater::same_source(source, &self.geoip_source) {
            let health = geoip_updater::refresh_health(source, self.maxmind_health, outcome);
            self.update_maxmind_health(health);
        }
    }

    /// Takes over what was found out of the network.
    pub fn update_reachability(&mut self, reachability: N)
        ensures
            *final(self) == (AppState { reachability, ..*old(self) }),
    {
        self.reachability = reachability;
    }

    /// What is known of the network.
    pub fn reachability_snapshot(&self) -> (reachability: &N)
        ensures
            *reachability == self.reachability,
    {
        &self.reachability
    }

    /// Which baseline resolver is in use.
    pub fn baseline_snapshot(&self) -> (baseline: &B)
        ensures
            *baseline == self.baseline,
    {
        &self.baseline
    }

    /// Changes which baseline resolver is in use.
    pub fn update_baseline(&mut self, baseline: B)
        ensures
            *final(self) == (AppState { baseline, ..*old(self) }),
    {
        self.baseline = baseline;
    }

    /// What asks resolvers.
    pub fn doh_client(&self) -> (client: &C)
        ensures
            *client == self.client,
    {
        &self.client
    }

    /// Has the next refresh start at once. Asking twice is asking once.
    pub fn wake_geoip_refresh(&mut self)
        ensures
            *final(self) == (AppState { geoip_wake: true, ..*old(self) }),
    {
        self.geoip_wake = true;
    }

    /// Whether a refresh was asked for since the last time.
    pub fn take_geoip_wake(&mut self) -> (woken: bool)
        ensures
            woken == old(self).geoip_wake,
            *final(self) == (AppState { geoip_wake: false, ..*old(self) }),
    {
        let woken = self.geoip_wake;
        self.geoip_wake = false;
        woken
    }

    /// Takes a new list of voters into use.
    pub fn update_providers(&mut self, providers: Vec<ProviderEntry>)
        ensures
            *final(self) == (AppState { providers, ..*old(self) }),
    {
        self.providers = providers;
    }

    /// The voters.
    pub fn providers_snapshot(&self) -> (providers: Vec<ProviderEntry>)
        ensures
            providers@ == self.providers@,
    {
        upstream::copy_entries(self.providers.as_slice())
    }

    /// Asks the service to stop. Asking again changes nothing.
    pub fn request_shutdown(&mut self)
        ensures
            *final(self) == (AppState { shutdown: true, ..*old(self) }),
    {
        self.shutdown = true;
    }

    /// Whether the service is asked to stop.
    pub fn shutdown_handle(&self) -> (stopping: bool)
        ensures
            stopping == self.shutdown,
    {
        self.shutdown
    }

    /// The answered queries that are young enough at `now`.
    pub fn query_log_snapshot(&self, now: i128) -> (entries: Vec<LogEntry>)
        ensures
            query_log::records(entries@) == self.query_log@.filter(query_log::recent(now as int)),
    {
        self.query_log.snapshot(now)
    }

    /// Forgets the answered queries.
    pub fn clear_log(&mut self)
        ensures
            final(self).query_log@ == Seq::<query_log::LogRecord>::empty(),
            final(self).wf(),
            *final(self) == (AppState { query_log: final(self).query_log, ..*old(self) }),
    {
        self.query_log.clear();
    }

    /// The settings as they are, in the form that is written to disk.
    pub fn live_config(&self) -> (config: ResolverConfig)
        ensures
            config@ == self.live(),
    {
        ResolverConfig {
            port: self.persist.port,
            timeout_mode: self.runtime.timeout.mode,
            timeout_ms: config::timeout_ms(self.runtime.timeout.duration_nanos),
            providers: self.providers_snapshot(),
            cache: self.cache.config,
            geoip: GeoipConfig {
                blocked_countries: text::copy_texts(self.geoip_countries.as_slice()),
            },
            serve_baseline_when_filters_unreachable:
                self.runtime.serve_baseline_when_filters_unreachable,
            persist_query_log: self.persist.persist_query_log,
            persist_cache: self.persist.persist_cache,
        }
    }

    /// What is to be written to disk after a change.
    fn to_save(&self) -> (save: Option<Save>)
        ensures
            self.writes(save),
    {
        match &self.persist.paths {
            None => None,
            Some(paths) => Some(Save { path: paths.config.clone(), config: self.live_config() }),
        }
    }

    /// Changes the settings, and says what is to be written.
    pub fn apply_admin_config(&mut self, update: AdminConfigUpdate) -> (save: Option<Save>)
        ensures
            *final(self) == (AppState {
                runtime: RuntimeSettings {
                    timeout: TimeoutConfig {
                        mode: update.timeout_mode,
                        duration_nanos: old(self).runtime.timeout.duration_nanos,
                    },
                    serve_baseline_when_filters_unreachable:
                        update.serve_baseline_when_filters_unreachable,
                },
                ..*old(self)
            }),
            final(self).writes(save),
    {
        self.runtime = RuntimeSettings {
            timeout: TimeoutConfig {
                mode: update.timeout_mode,
                duration_nanos: self.runtime.timeout.duration_nanos,
            },
            serve_baseline_when_filters_unreachable:
                update.serve_baseline_when_filters_unreachable,
        };
        self.to_save()
    }

    /// Takes a cache with other settings into use, and says what is to be
    /// written. A cache is never changed in place.
    pub fn apply_cache_config(&mut self, cache: CacheState<K>) -> (save: Option<Save>)
        ensures
            *final(self) == (AppState { cache, ..*old(self) }),
            final(self).writes(save),
    {
        self.cache = cache;
        self.to_save()
    }
}

/// A list of countries with one more, unless it holds it.
pub open spec fn with_country(countries: Seq<Seq<char>>, code: Seq<char>) -> Seq<Seq<char>> {
    if countries.contains(code) {
        countries
    } else {
        countries.push(code)
    }
}

/// Whether a text is another than this.
pub open spec fn other_country(code: Seq<char>) -> spec_fn(Seq<char>) -> bool {
    |country: Seq<char>| country != code
}

/// A list of countries without one of them.
pub open spec fn without_country(countries: Seq<Seq<char>>, code: Seq<char>) -> Seq<Seq<char>> {
    countries.filter(other_country(code))
}

fn country_added(countries: &[String], code: String) -> (after: Vec<String>)
    ensures
        text::texts(after@) == with_country(text::texts(countries@), code@),
{
    let mut after = text::copy_texts(countries);
    let mut i: usize = 0;
    while i < countries.len()
        invariant
            i <= countries@.len(),
            text::texts(after@) == text::texts(countries@),
            forall|j: int| 0 <= j < i ==> (#[trigger] countries@[j])@ != code@,
        decreases countries@.len() - i,
    {
        if text::same_text(countries[i].as_str(), code.as_str()) {
            assert(text::texts(countries@)[i as int] == code@);
            return after;
        }
        i = i + 1;
    }
    proof {
        if text::texts(countries@).contains(code@) {
            let j = choose|j: int|
                0 <= j < text::texts(countries@).len() && text::texts(countries@)[j] == code@;
            assert(countries@[j]@ == code@);
        }
    }
    let ghost before = after@;
    after.push(code);
    assert(text::texts(after@) =~= text::texts(before).push(code@));
    after
}

fn country_removed(countries: &[String], code: &str) -> (after: Vec<String>)
    ensures
        text::texts(after@) == without_country(text::texts(countries@), code@),
{
    let mut after: Vec<String> = Vec::new();
    let mut i: usize = 0;
    let ghost all = text::texts(countries@);
    proof {
        reveal(Seq::filter);
        assert(text::texts(after@) =~= all.take(0).filter(other_country(code@)));
    }
    while i < countries.len()
        invariant
            i <= countries@.len(),
            all == text::texts(countries@),
            text::texts(after@) == all.take(i as int).filter(other_country(code@)),
        decreases countries@.len() - i,
    {
        let ghost before = after@;
        proof {
            assert(all.take(i + 1) =~= all.take(i as int).push(all[i as int]));
            all.take(i as int).lemma_filter_push(all[i as int], other_country(code@));
        }
        if !text::same_text(countries[i].as_str(), code) {
            after.push(countries[i].clone());
            assert(text::texts(after@) =~= text::texts(before).push(all[i as int]));
        }
        i = i + 1;
    }
    assert(all.take(i as int) =~= all);
    after
}

/// What is to be done after a change of the override lists.
pub struct OverridesChange {
    /// The file that the lists are to be written to.
    pub save: Option<FilePath>,
    /// The entries that came or went. What the cache holds for them no longer
    /// counts.
    pub changed: Vec<OverrideEntry>,
}

fn copy_changed(before: &OverrideLists, after: &OverrideLists) -> (changed: Vec<OverrideEntry>)
    ensures
        overrides::rules_of(changed@) == overrides::changed(before@, after@),
{
    let found = changed_entries(before, after);
    let mut changed: Vec<OverrideEntry> = Vec::new();
    let mut i: usize = 0;
    while i < found.len()
        invariant
            i <= found@.len(),
            changed@.len() == i,
            forall|j: int| 0 <= j < i ==> (#[trigger] changed@[j])@ == found@[j]@,
        decreases found@.len() - i,
    {
        changed.push(found[i].clone());
        i = i + 1;
    }
    assert(overrides::rules_of(changed@) =~= overrides::rules_of_refs(found@));
    changed
}

impl<C, K, N, B> AppState<C, K, N, B> {
    /// Adds a blocked country, and says what is to be written. A country that
    /// is blocked already stays so; what is no country code is refused.
    pub fn serve_admin_geoip_add(&mut self, country: &str) -> (r: Result<
        Option<Save>,
        ConfigError,
    >)
        ensures
            *final(self) == (AppState { geoip_countries: final(self).geoip_countries, ..*old(self) }),
            match r {
                Ok(save) => {
                    &&& config::country_code(country@)
                    &&& text::texts(final(self).geoip_countries@) == with_country(
                        text::texts(old(self).geoip_countries@),
                        text::upper_text(country@),
                    )
                    &&& final(self).writes(save)
                },
                Err(e) => !config::country_code(country@) && e == ConfigError::InvalidCountryCode
                    && *final(self) == *old(self),
            },
    {
        match config::validate_country_code(country) {
            Err(error) => Err(error),
            Ok(code) => {
                self.geoip_countries = country_added(self.geoip_countries.as_slice(), code);
                Ok(self.to_save())
            },
        }
    }

    /// Removes a blocked country, and says what is to be written. The code is
    /// read as it is when a country is added, so that its case does not matter.
    pub fn serve_admin_geoip_remove(&mut self, country: &str) -> (r: Result<
        Option<Save>,
        ConfigError,
    >)
        ensures
            *final(self) == (AppState { geoip_countries: final(self).geoip_countries, ..*old(self) }),
            match r {
                Ok(save) => {
                    &&& config::country_code(country@)
                    &&& text::texts(final(self).geoip_countries@) == without_country(
                        text::texts(old(self).geoip_countries@),
                        text::upper_text(country@),
                    )
                    &&& final(self).writes(save)
                },
                Err(e) => !config::country_code(country@) && e == ConfigError::InvalidCountryCode
                    && *final(self) == *old(self),
            },
    {
        match config::validate_country_code(country) {
            Err(error) => Err(error),
            Ok(code) => {
                self.geoip_countries = country_removed(
                    self.geoip_countries.as_slice(),
                    code.as_str(),
                );
                Ok(self.to_save())
            },
        }
    }

    /// Whether a change is told to be on disk: there is a directory for it, and
    /// writing it there went well. A failed write is never passed over.
    pub fn persisted(&self, written: bool) -> (persisted: bool)
        ensures
            persisted == (self.persist.paths is Some && written),
    {
        self.persist.paths.is_some() && written
    }

    /// What is shown of the country filter. What is said of the database is
    /// what it says of itself, whatever source is set.
    pub fn geoip_view(&self, persisted: bool) -> (view: GeoipCountriesResponse)
        ensures
            text::texts(view.blocked_countries@) == text::texts(self.geoip_countries@),
            view.persisted == persisted,
            view.database_loaded == (self.geoip.reader is Some),
            view.database_built_at_ms == match self.geoip.updated_at {
                Some(seconds) => Some(admin::millis(seconds)),
                None => None,
            },
            match self.geoip.reader {
                Some(reader) => text::opt_text(view.database_type) == Some(
                    (geoip::mmdb_metadata(reader.content())->0).0,
                ),
                None => view.database_type is None,
            },
    {
        GeoipCountriesResponse {
            blocked_countries: text::copy_texts(self.geoip_countries.as_slice()),
            persisted,
            database_loaded: self.geoip.reader.is_some(),
            database_built_at_ms: match self.geoip.updated_at {
                Some(seconds) => Some(admin::unix_millis(seconds)),
                None => None,
            },
            database_type: match &self.geoip.reader {
                Some(reader) => Some(reader.database_type().to_owned()),
                None => None,
            },
        }
    }

    /// Adds a voter, and says what is to be written.
    pub fn serve_admin_providers_add(
        &mut self,
        request: ProviderAddRequest,
        presets: &[ProviderSpec],
        id_is_valid: bool,
        url_is_valid: bool,
    ) -> (r: Result<Option<Save>, Status>)
        ensures
            *final(self) == (AppState { providers: final(self).providers, ..*old(self) }),
            match (
                r,
                upstream::added(
                    old(self).providers@,
                    request,
                    presets@,
                    id_is_valid,
                    url_is_valid,
                ),
            ) {
                (Ok(save), Some(after)) => final(self).providers@ == after && final(self).writes(
                    save,
                ),
                (Err(status), None) => status == Status::BadRequest && *final(self) == *old(self),
                _ => false,
            },
    {
        match upstream::add_provider(
            self.providers_snapshot(),
            request,
            presets,
            id_is_valid,
            url_is_valid,
        ) {
            Err(status) => Err(status),
            Ok(after) => {
                self.providers = after;
                Ok(self.to_save())
            },
        }
    }

    /// Removes a voter that is no preset, and says what is to be written.
    pub fn serve_admin_providers_remove(&mut self, id: &str, presets: &[ProviderSpec]) -> (r:
        Result<Option<Save>, Status>)
        ensures
            *final(self) == (AppState { providers: final(self).providers, ..*old(self) }),
            match (r, upstream::removed(old(self).providers@, id@, presets@)) {
                (Ok(save), Some(after)) => final(self).providers@ == after && final(self).writes(
                    save,
                ),
                (Err(status), None) => status == Status::BadRequest && *final(self) == *old(self),
                _ => false,
            },
    {
        match upstream::remove_provider(self.providers_snapshot(), id, presets) {
            Err(status) => Err(status),
            Ok(after) => {
                self.providers = after;
                Ok(self.to_save())
            },
        }
    }

    /// Switches a voter on or off, and says what is to be written.
    pub fn serve_admin_providers_set_enabled(&mut self, id: &str, enabled: bool) -> (r: Result<
        Option<Save>,
        Status,
    >)
        ensures
            *final(self) == (AppState { providers: final(self).providers, ..*old(self) }),
            match (r, upstream::switched(old(self).providers@, id@, enabled)) {
                (Ok(save), Some(after)) => final(self).providers@ == after && final(self).writes(
                    save,
                ),
                (Err(status), None) => status == Status::BadRequest && *final(self) == *old(self),
                _ => false,
            },
    {
        match upstream::set_provider_enabled(self.providers_snapshot(), id, enabled) {
            Err(status) => Err(status),
            Ok(after) => {
                self.providers = after;
                Ok(self.to_save())
            },
        }
    }

    /// The file that the override lists are written to.
    pub open spec fn overrides_file(&self) -> Option<FilePath> {
        match self.persist.paths {
            Some(paths) => Some(paths.overrides),
            None => None,
        }
    }

    fn take_overrides(&mut self, lists: OverrideLists) -> (change: OverridesChange)
        ensures
            final(self).overrides.lists == lists,
            final(self).overrides.invalid == old(self).overrides.invalid,
            *final(self) == (AppState { overrides: final(self).overrides, ..*old(self) }),
            change.save == final(self).overrides_file(),
            overrides::rules_of(change.changed@) == overrides::changed(
                old(self).overrides.lists@,
                lists@,
            ),
    {
        let changed = copy_changed(&self.overrides.lists, &lists);
        self.overrides.lists = lists;
        let save = match &self.persist.paths {
            Some(paths) => Some(paths.overrides.clone()),
            None => None,
        };
        OverridesChange { save, changed }
    }

    /// Adds an override, and says what is to be done about it. One that is in
    /// the list already stays there; what is no pattern is refused. What the
    /// file holds and was not understood is kept.
    pub fn serve_admin_overrides_add(&mut self, raw: &str, list: ListKind) -> (r: Result<
        OverridesChange,
        InvalidReason,
    >)
        ensures
            *final(self) == (AppState { overrides: final(self).overrides, ..*old(self) }),
            final(self).overrides.invalid == old(self).overrides.invalid,
            match (r, overrides::pattern(raw@)) {
                (Ok(change), Ok((domain, is_wildcard))) => {
                    &&& final(self).overrides.lists@ == overrides::with_rule(
                        old(self).overrides.lists@,
                        overrides::OverrideRule { domain, is_wildcard, list },
                    )
                    &&& change.save == final(self).overrides_file()
                    &&& overrides::rules_of(change.changed@) == overrides::changed(
                        old(self).overrides.lists@,
                        final(self).overrides.lists@,
                    )
                },
                (Err(reason), Err(why)) => reason == why && *final(self) == *old(self),
                _ => false,
            },
    {
        match self.overrides.lists.with_entry_added(raw, list) {
            Err(reason) => Err(reason),
            Ok(lists) => Ok(self.take_overrides(lists)),
        }
    }

    /// Removes an override, and says what is to be done about it. One that is
    /// not in the list is no error.
    pub fn serve_admin_overrides_remove(
        &mut self,
        domain: &str,
        is_wildcard: bool,
        list: ListKind,
    ) -> (change: OverridesChange)
        ensures
            *final(self) == (AppState { overrides: final(self).overrides, ..*old(self) }),
            final(self).overrides.invalid == old(self).overrides.invalid,
            final(self).overrides.lists@ == overrides::without_rule(
                old(self).overrides.lists@,
                overrides::OverrideRule { domain: domain@, is_wildcard, list },
            ),
            change.save == final(self).overrides_file(),
            overrides::rules_of(change.changed@) == overrides::changed(
                old(self).overrides.lists@,
                final(self).overrides.lists@,
            ),
    {
        let lists = self.overrides.lists.with_entry_removed(domain, is_wildcard, list);
        self.take_overrides(lists)
    }

    /// Reads everything from disk again: the settings, the override lists and
    /// the credentials. Either all of it comes into use or, where one of the
    /// two files cannot be read, nothing. The port never changes; the log is
    /// cleared and the cache is a new one. Credentials that cannot be read
    /// leave the source as it is.
    pub fn apply_admin_reset(
        &mut self,
        credentials: Result<Option<MaxmindCredentials>, CredentialsError>,
        loaded: Result<LoadedConfig<K>, ConfigError>,
        lists: Result<(OverrideLists, Vec<InvalidEntry>), OverrideError>,
    ) -> (r: Result<ResetNotes, AdminResetError>)
        ensures
            match r {
                Err(AdminResetError::NoAppData) => old(self).persist.paths is None,
                Err(AdminResetError::Config(e)) => old(self).persist.paths is Some && (
                loaded matches Err(why) && why == e),
                Err(AdminResetError::Overrides(e)) => old(self).persist.paths is Some
                    && loaded is Ok && (lists matches Err(why) && why == e),
                Ok(notes) => {
                    &&& old(self).persist.paths is Some
                    &&& loaded is Ok
                    &&& lists is Ok
                    &&& notes.invalid == (lists->Ok_0).1@.len()
                    &&& notes.port_differs == ((loaded->Ok_0).config.port
                        != old(self).persist.port)
                    &&& notes.source_kept == (credentials is Err)
                },
            },
            r is Err ==> *final(self) == *old(self),
            r is Ok ==> ({
                let source = source_from(credentials, old(self).geoip_source);
                *final(self) == (AppState {
                    overrides: OverridesState {
                        lists: (lists->Ok_0).0,
                        invalid: (lists->Ok_0).1,
                    },
                    geoip_source: source,
                    geoip_wake: true,
                    maxmind_health: geoip_updater::fresh_health(source),
                    query_log: final(self).query_log,
                    ..with_config(*old(self), (loaded->Ok_0).config, (loaded->Ok_0).cache)
                })
            }),
            r is Ok ==> final(self).query_log@ == Seq::<query_log::LogRecord>::empty()
                && final(self).wf(),
    {
        if self.persist.paths.is_none() {
            return Err(AdminResetError::NoAppData);
        }
        let loaded = match loaded {
            Ok(loaded) => loaded,
            Err(error) => {
                return Err(AdminResetError::Config(error));
            },
        };
        let (lists, invalid) = match lists {
            Ok(pair) => pair,
            Err(error) => {
                return Err(AdminResetError::Overrides(error));
            },
        };
        let source_kept = credentials.is_err();
        let source = match credentials {
            Ok(Some(found)) => GeoipSource::Maxmind(found),
            Ok(None) => GeoipSource::DbIpLite,
            Err(_) => self.geoip_source_snapshot(),
        };
        let config = loaded.config;
        let notes = ResetNotes {
            invalid: invalid.len(),
            port_differs: config.port != self.persist.port,
            source_kept,
        };
        self.runtime = RuntimeSettings {
            timeout: TimeoutConfig {
                mode: config.timeout_mode,
                duration_nanos: config.timeout_ms as u128 * config::NANOS_PER_MILLI,
            },
            serve_baseline_when_filters_unreachable:
                config.serve_baseline_when_filters_unreachable,
        };
        self.update_providers(config.providers);
        self.overrides = OverridesState { lists, invalid };
        self.cache = CacheState { cache: loaded.cache, config: config.cache };
        self.update_geoip_countries(config.geoip.blocked_countries);
        self.update_geoip_source(source);
        self.wake_geoip_refresh();
        self.query_log.clear();
        Ok(notes)
    }
}

/// A name that no resolver ever resolves. The service looks it up in its own
/// lists to show that it can.
pub const HEALTH_SENTINEL_DOMAIN: &'static str = "health-probe.dnsqb.invalid";

/// What is to be done about new MaxMind credentials.
pub enum MaxmindStep {
    /// Refuse the request.
    Refuse(Status),
    /// Answer at once.
    Reply(MaxmindCredentialsView),
    /// Store these.
    Store(MaxmindCredentials),
    /// Ask MaxMind whether it accepts them.
    Probe,
}

/// Whether a view says that the credentials of an account were not stored.
pub open spec fn not_stored(
    view: MaxmindCredentialsView,
    account: Seq<char>,
    health: MaxmindHealth,
) -> bool {
    &&& !view.configured
    &&& text::opt_text(view.account_id) == Some(account)
    &&& view.check == MaxmindCredentialCheck::Skipped
    &&& view.refresh_health == health
    &&& !view.persisted
}

impl<C, K, N, B> AppState<C, K, N, B> {
    fn view_not_stored(&self, account_id: String) -> (view: MaxmindCredentialsView)
        ensures
            not_stored(view, account_id@, self.maxmind_health),
    {
        MaxmindCredentialsView {
            configured: false,
            account_id: Some(account_id),
            check: MaxmindCredentialCheck::Skipped,
            refresh_health: self.maxmind_health,
            persisted: false,
        }
    }

    /// What is shown of the MaxMind credentials, given those that are stored.
    /// Credentials that cannot be read count as none.
    pub fn maxmind_view(
        &self,
        stored: Result<Option<MaxmindCredentials>, CredentialsError>,
        persisted: bool,
    ) -> (view: MaxmindCredentialsView)
        ensures
            match (self.persist.paths, stored) {
                (Some(_), Ok(Some(found))) => view.configured && text::opt_text(view.account_id)
                    == Some(found.account_id@),
                _ => !view.configured && view.account_id is None,
            },
            view.check == MaxmindCredentialCheck::Skipped,
            view.refresh_health == self.maxmind_health,
            view.persisted == persisted,
    {
        let account_id = match (&self.persist.paths, stored) {
            (Some(_), Ok(Some(found))) => Some(found.account_id),
            _ => None,
        };
        MaxmindCredentialsView {
            configured: account_id.is_some(),
            account_id,
            check: MaxmindCredentialCheck::Skipped,
            refresh_health: self.maxmind_health,
            persisted,
        }
    }

    /// Begins to take new MaxMind credentials. A blank part is refused, whether
    /// or not there is a directory; without one there is no place for the
    /// credentials. Else they are stored before anything else is done with them.
    pub fn serve_admin_geoip_maxmind(&self, account_id: String, license_key: String) -> (step:
        MaxmindStep)
        ensures
            if !geoip_credentials::usable(account_id@, license_key@) {
                step matches MaxmindStep::Refuse(status) && status == Status::BadRequest
            } else {
                match self.persist.paths {
                    None => step matches MaxmindStep::Reply(view) && not_stored(
                        view,
                        account_id@,
                        self.maxmind_health,
                    ),
                    Some(_) => step matches MaxmindStep::Store(c) && c.account_id@ == account_id@
                        && c.license_key@ == license_key@,
                }
            },
    {
        match geoip_credentials::save(account_id.as_str(), license_key.as_str()) {
            Err(_) => MaxmindStep::Refuse(Status::BadRequest),
            Ok(credentials) => if self.persist.paths.is_some() {
                MaxmindStep::Store(credentials)
            } else {
                MaxmindStep::Reply(self.view_not_stored(account_id))
            },
        }
    }

    /// Goes on once the credentials of an account were stored, or not. What
    /// reads back from the store comes into use at once; where nothing does,
    /// the source stays as it is until the next reset.
    pub fn maxmind_stored(
        &mut self,
        account_id: String,
        stored: bool,
        read_back: Result<Option<MaxmindCredentials>, CredentialsError>,
    ) -> (step: MaxmindStep)
        ensures
            match (stored, step) {
                (false, MaxmindStep::Reply(view)) => not_stored(
                    view,
                    account_id@,
                    old(self).maxmind_health,
                ) && *final(self) == *old(self),
                (true, MaxmindStep::Probe) => match read_back {
                    Ok(Some(found)) => *final(self) == (AppState {
                        geoip_source: GeoipSource::Maxmind(found),
                        maxmind_health: MaxmindHealth::Pending,
                        geoip_wake: true,
                        ..*old(self)
                    }),
                    _ => *final(self) == *old(self),
                },
                _ => false,
            },
    {
        if !stored {
            return MaxmindStep::Reply(self.view_not_stored(account_id));
        }
        match read_back {
            Ok(Some(found)) => {
                self.update_geoip_source(GeoipSource::Maxmind(found));
                self.wake_geoip_refresh();
            },
            _ => {},
        }
        MaxmindStep::Probe
    }

    /// Ends taking new MaxMind credentials, given what asking MaxMind came to.
    /// Nothing came of it where it could not even be asked.
    pub fn maxmind_probed(&self, account_id: String, reply: Option<ProbeReply>) -> (view:
        MaxmindCredentialsView)
        ensures
            view.configured,
            text::opt_text(view.account_id) == Some(account_id@),
            view.check == match reply {
                None => MaxmindCredentialCheck::Unverified,
                Some(ProbeReply::Status(status)) => if status == 401 || status == 403 {
                    MaxmindCredentialCheck::Rejected
                } else if geoip_updater::success_status(status) {
                    MaxmindCredentialCheck::Verified
                } else {
                    MaxmindCredentialCheck::Unverified
                },
                Some(_) => MaxmindCredentialCheck::Unverified,
            },
            view.refresh_health == self.maxmind_health,
            view.persisted,
    {
        let check = match reply {
            None => MaxmindCredentialCheck::Unverified,
            Some(reply) => admin::credential_check(
                &geoip_updater::check_maxmind_credentials(reply),
            ),
        };
        MaxmindCredentialsView {
            configured: true,
            account_id: Some(account_id),
            check,
            refresh_health: self.maxmind_health,
            persisted: true,
        }
    }

    /// Goes back to the database that needs no credentials, given whether the
    /// stored ones were removed.
    pub fn serve_admin_geoip_maxmind_clear(&mut self, removed: bool) -> (view:
        MaxmindCredentialsView)
        ensures
            *final(self) == (AppState {
                geoip_source: GeoipSource::DbIpLite,
                maxmind_health: MaxmindHealth::NotApplicable,
                geoip_wake: true,
                ..*old(self)
            }),
            !view.configured,
            view.account_id is None,
            view.check == MaxmindCredentialCheck::Skipped,
            view.refresh_health == MaxmindHealth::NotApplicable,
            view.persisted == (old(self).persist.paths is Some && removed),
    {
        let persisted = self.persisted(removed);
        self.update_geoip_source(GeoipSource::DbIpLite);
        self.wake_geoip_refresh();
        MaxmindCredentialsView {
            configured: false,
            account_id: None,
            check: MaxmindCredentialCheck::Skipped,
            refresh_health: self.maxmind_health,
            persisted,
        }
    }

    /// Whether `stats` are the statistics at `now`: how many queries are being
    /// answered, how many answered ones the log holds that are young enough, and
    /// what `compute` makes of these.
    pub open spec fn counts<S, F: Fn(&[LogEntry]) -> S>(
        &self,
        now: i128,
        compute: F,
        stats: AdminStats<S>,
    ) -> bool {
        let recent = self.query_log@.filter(query_log::recent(now as int));
        &&& stats.in_flight == self.in_flight
        &&& stats.total == recent.len()
        &&& exists|entries: &[LogEntry]|
            query_log::records(entries@) == recent && #[trigger] compute.ensures(
                (entries,),
                stats.log,
            )
    }

    /// The statistics at `now`.
    pub fn live_stats<S, F: Fn(&[LogEntry]) -> S>(&self, now: i128, compute: F) -> (stats:
        AdminStats<S>)
        requires
            forall|entries: &[LogEntry]| #[trigger] compute.requires((entries,)),
        ensures
            self.counts(now, compute, stats),
    {
        let entries = self.query_log_snapshot(now);
        let recent = entries.as_slice();
        let log = compute(recent);
        let stats = AdminStats { in_flight: self.in_flight, total: recent.len(), log };
        assert(query_log::records(recent@).len() == recent@.len());
        assert(compute.ensures((recent,), stats.log));
        stats
    }

    /// What the service says of its state at `now`. What is known of the network
    /// and which baseline resolver is in use are shown as they are.
    pub fn admin_status<S, F: Fn(&[LogEntry]) -> S>(
        &self,
        now: i128,
        compute: F,
        watchdog: Option<WatchdogStatusView>,
        persisted: bool,
    ) -> (status: AdminStatusResponse<N, B, S>) where N: Copy, B: Copy
        requires
            forall|entries: &[LogEntry]| #[trigger] compute.requires((entries,)),
        ensures
            status.network == self.reachability,
            status.baseline_endpoint == self.baseline,
            self.counts(now, compute, status.stats),
            text::texts(status.active_providers@) == self.providers@.filter(
                upstream::asked(),
            ).map_values(admin::id_of()),
            status.timeout_mode == self.runtime.timeout.mode,
            status.timeout_ms == config::whole_millis(self.runtime.timeout.duration_nanos),
            status.serve_baseline_when_filters_unreachable
                == self.runtime.serve_baseline_when_filters_unreachable,
            status.port == self.persist.port,
            status.watchdog == watchdog,
            status.persisted == persisted,
            status.encrypted_persistence == (EncryptedPersistenceView {
                query_log: self.persist.persist_query_log,
                cache: self.persist.persist_cache,
            }),
    {
        AdminStatusResponse {
            active_providers: admin::active_ids(self.providers.as_slice()),
            timeout_mode: self.runtime.timeout.mode,
            timeout_ms: config::timeout_ms(self.runtime.timeout.duration_nanos),
            serve_baseline_when_filters_unreachable:
                self.runtime.serve_baseline_when_filters_unreachable,
            port: self.persist.port,
            network: self.reachability,
            baseline_endpoint: self.baseline,
            stats: self.live_stats(now, compute),
            watchdog,
            persisted,
            encrypted_persistence: EncryptedPersistenceView {
                query_log: self.persist.persist_query_log,
                cache: self.persist.persist_cache,
            },
        }
    }

    /// What the service says of its health, after it has looked a name up in
    /// its own lists.
    pub fn serve_health(&self) -> (health: HealthResponse)
        ensures
            health.active_providers == upstream::enabled_count(self.providers@),
            health.geoip == if self.geoip.reader is Some {
                HealthGeoip::Loaded
            } else {
                HealthGeoip::Absent
            },
    {
        let _ = self.overrides.lists.decision(HEALTH_SENTINEL_DOMAIN);
        HealthResponse {
            active_providers: upstream::count_enabled(self.providers.as_slice()),
            geoip: if self.geoip.reader.is_some() {
                HealthGeoip::Loaded
            } else {
                HealthGeoip::Absent
            },
        }
    }
}

/// What the log keeps of an answer.
#[derive(Debug)]
pub struct QueryLogMeta {
    /// The name that was asked for.
    pub domain: String,
    /// The record type that was asked for.
    pub qtype: u16,
    /// How it was answered.
    pub decision: Decision,
    /// What decided on that.
    pub decision_source: DecisionSource,
    /// Each voter's part.
    pub voters: Vec<VoterRecord>,
    /// The blocked country, if one decided.
    pub geoip_country: Option<String>,
    /// The country of the first address of the answer.
    pub resolved_ip_country: Option<String>,
}

/// What the resolver made of a query.
pub enum PipelineOutcome {
    /// An answer, and what the log is to keep of it.
    Response(Option<QueryLogMeta>),
    /// Nothing: the query is to be handed on to a single resolver.
    ProxyToSingleUpstream,
}

/// A time in whole milliseconds, as far as `u64` goes.
pub open spec fn latency_of(elapsed_nanos: u128) -> u64 {
    if elapsed_nanos / config::NANOS_PER_MILLI > u64::MAX {
        u64::MAX
    } else {
        (elapsed_nanos / config::NANOS_PER_MILLI) as u64
    }
}

/// The record of an answer.
pub open spec fn record_of(
    meta: QueryLogMeta,
    now: i128,
    elapsed_nanos: u128,
) -> query_log::LogRecord {
    query_log::LogRecord {
        timestamp: now as int,
        domain: meta.domain@,
        qtype: meta.qtype,
        decision: meta.decision,
        decision_source: meta.decision_source,
        voters: query_log::votes(meta.voters@),
        geoip_country: text::opt_text(meta.geoip_country),
        resolved_ip_country: text::opt_text(meta.resolved_ip_country),
        latency_ms: latency_of(elapsed_nanos),
    }
}

impl<C, K, N, B> AppState<C, K, N, B> {
    /// Begins to answer a query. What is no DNS message is not begun at all,
    /// and never counts as being answered.
    pub fn begin_query(&mut self, wire_bytes: &[u8]) -> (begun: bool)
        ensures
            begun == wire::is_message(wire_bytes@),
            *final(self) == if begun {
                AppState { in_flight: old(self).in_flight.wrapping_add(1), ..*old(self) }
            } else {
                *old(self)
            },
    {
        self.enter_query(wire::decode_wire_message(wire_bytes))
    }

    /// Begins to answer a query, given whether it is a DNS message.
    pub fn enter_query(&mut self, decoded: bool) -> (begun: bool)
        ensures
            begun == decoded,
            *final(self) == if decoded {
                AppState { in_flight: old(self).in_flight.wrapping_add(1), ..*old(self) }
            } else {
                *old(self)
            },
    {
        if decoded {
            self.in_flight = self.in_flight.wrapping_add(1);
        }
        decoded
    }

    /// Takes what the resolver made of a query. An answer is logged where the
    /// resolver says what to keep of it; a query that is handed on is not.
    /// Gives whether the query is to be handed on.
    pub fn resolve_doh_request(
        &mut self,
        outcome: PipelineOutcome,
        now: i128,
        elapsed_nanos: u128,
    ) -> (handed_on: bool)
        requires
            old(self).wf(),
        ensures
            handed_on == (outcome is ProxyToSingleUpstream),
            *final(self) == (AppState { query_log: final(self).query_log, ..*old(self) }),
            final(self).query_log@ == match outcome {
                PipelineOutcome::Response(Some(meta)) => query_log::newest(
                    old(self).query_log@.push(record_of(meta, now, elapsed_nanos)),
                    query_log::DEFAULT_MAX_ENTRIES as nat,
                ),
                _ => old(self).query_log@,
            },
            match outcome {
                PipelineOutcome::Response(Some(meta)) => {
                    let was = old(self).query_log@;
                    let log = final(self).query_log@;
                    let last = log.last();
                    &&& log.len() == if was.len() < 1000 {
                        was.len() + 1
                    } else {
                        1000
                    }
                    &&& log.drop_last() == was.skip(was.len() + 1 - log.len())
                    &&& last.timestamp == now
                    &&& last.domain == meta.domain@
                    &&& last.qtype == meta.qtype
                    &&& last.decision == meta.decision
                    &&& last.decision_source == meta.decision_source
                    &&& last.voters.len() == meta.voters@.len()
                    &&& forall|i: int|
                        0 <= i < meta.voters@.len() ==> #[trigger] last.voters[i]
                            == meta.voters@[i]@
                    &&& last.geoip_country == text::opt_text(meta.geoip_country)
                    &&& last.resolved_ip_country == text::opt_text(meta.resolved_ip_country)
                    &&& last.latency_ms <= elapsed_nanos / 1_000_000
                    &&& last.latency_ms == elapsed_nanos / 1_000_000 || last.latency_ms == u64::MAX
                },
                _ => final(self).query_log@ == old(self).query_log@,
            },
            final(self).wf(),
    {
        match outcome {
            PipelineOutcome::ProxyToSingleUpstream => true,
            PipelineOutcome::Response(None) => false,
            PipelineOutcome::Response(Some(meta)) => {
                let millis: u128 = elapsed_nanos / config::NANOS_PER_MILLI;
                let latency_ms: u64 = if millis > u64::MAX as u128 {
                    u64::MAX
                } else {
                    millis as u64
                };
                let ghost record = record_of(meta, now, elapsed_nanos);
                let entry = LogEntry {
                    timestamp: now,
                    domain: meta.domain,
                    qtype: meta.qtype,
                    decision: meta.decision,
                    decision_source: meta.decision_source,
                    voters: meta.voters,
                    geoip_country: meta.geoip_country,
                    resolved_ip_country: meta.resolved_ip_country,
                    latency_ms,
                };
                assert(entry@ == record);
                self.query_log.push(entry);
                proof {
                    let was = old(self).query_log@;
                    let log = self.query_log@;
                    assert(log.drop_last() =~= was.skip(was.len() + 1 - log.len()));
                }
                false
            },
        }
    }

    /// Ends answering a query that was begun.
    pub fn end_query(&mut self)
        ensures
            *final(self) == (AppState {
                in_flight: old(self).in_flight.wrapping_sub(1),
                ..*old(self)
            }),
    {
        self.in_flight = self.in_flight.wrapping_sub(1);
    }
}

/// A query that was begun and ended leaves the number of those being answered
/// as it was.
pub proof fn law_queries_in_flight_balance(in_flight: u64)
    ensures
        in_flight.wrapping_add(1).wrapping_sub(1) == in_flight,
{
}

/// What a change writes to disk holds every other setting as it was: each
/// change touches its own settings and no others.
pub proof fn law_other_settings_survive<C, K, N, B>(
    state: AppState<C, K, N, B>,
    runtime: RuntimeSettings,
    cache: CacheState<K>,
    countries: Vec<String>,
    providers: Vec<ProviderEntry>,
)
    requires
        runtime.timeout.duration_nanos == state.runtime.timeout.duration_nanos,
    ensures
        (AppState { runtime, ..state }).live() == (config::Settings {
            timeout_mode: runtime.timeout.mode,
            serve_baseline_when_filters_unreachable:
                runtime.serve_baseline_when_filters_unreachable,
            ..state.live()
        }),
        (AppState { cache, ..state }).live() == (config::Settings {
            cache: cache.config@,
            ..state.live()
        }),
        (AppState { geoip_countries: countries, ..state }).live() == (config::Settings {
            blocked_countries: text::texts(countries@),
            ..state.live()
        }),
        (AppState { providers, ..state }).live() == (config::Settings {
            providers: providers@,
            ..state.live()
        }),
{
}

/// Settings that were written and are then read again come into use as they
/// were: a reset after a change that was written changes no setting.
pub proof fn law_a_reset_reads_what_was_written<C, K, N, B>(
    state: AppState<C, K, N, B>,
    written: ResolverConfig,
    cache: K,
)
    requires
        written@ == state.live(),
    ensures
        with_config(state, written, cache).live() == state.live(),
{
    let ms = written.timeout_ms;
    assert((ms * config::NANOS_PER_MILLI) as u128 / config::NANOS_PER_MILLI == ms);
}

/// Whatever settings are read from disk, the port that the service listens on
/// and what it keeps on disk stay as they are.
pub proof fn law_a_reset_never_moves_the_listener<C, K, N, B>(
    state: AppState<C, K, N, B>,
    read: ResolverConfig,
    cache: K,
)
    ensures
        with_config(state, read, cache).live().port == state.live().port,
        with_config(state, read, cache).live().persist_query_log == state.live().persist_query_log,
        with_config(state, read, cache).live().persist_cache == state.live().persist_cache,
{
}

/// A country that is added is in the list once, adding it again changes
/// nothing, and removing it leaves the list as it was before it was added.
pub proof fn law_countries_are_added_and_removed(countries: Seq<Seq<char>>, code: Seq<char>)
    ensures
        with_country(countries, code).contains(code),
        with_country(with_country(countries, code), code) == with_country(countries, code),
        countries.no_duplicates() ==> with_country(countries, code).no_duplicates(),
        !without_country(countries, code).contains(code),
        !countries.contains(code) ==> without_country(with_country(countries, code), code)
            == countries,
{
    let more = with_country(countries, code);
    if !countries.contains(code) {
        assert(more[countries.len() as int] == code);
        countries.lemma_filter_push(code, other_country(code));
        lemma_no_country_removed(countries, code);
    }
    assert(more.contains(code));
    lemma_country_removed(countries, code);
}

proof fn lemma_no_country_removed(countries: Seq<Seq<char>>, code: Seq<char>)
    requires
        !countries.contains(code),
    ensures
        without_country(countries, code) == countries,
    decreases countries.len(),
{
    reveal(Seq::filter);
    if countries.len() > 0 {
        let rest = countries.drop_last();
        assert(!rest.contains(code)) by {
            if rest.contains(code) {
                let k = choose|k: int| 0 <= k < rest.len() && rest[k] == code;
                assert(countries[k] == code);
            }
        }
        lemma_no_country_removed(rest, code);
        assert(countries.contains(countries.last()));
        assert(countries =~= rest.push(countries.last()));
    } else {
        assert(without_country(countries, code) =~= countries);
    }
}

proof fn lemma_country_removed(countries: Seq<Seq<char>>, code: Seq<char>)
    ensures
        !without_country(countries, code).contains(code),
    decreases countries.len(),
{
    reveal(Seq::filter);
    if countries.len() > 0 {
        let rest = countries.drop_last();
        lemma_country_removed(rest, code);
        let kept = without_country(countries, code);
        if kept.contains(code) {
            let k = choose|k: int| 0 <= k < kept.len() && kept[k] == code;
            if k < without_country(rest, code).len() {
                assert(without_country(rest, code)[k] == code);
            }
        }
    }
}

/// The record of an answer says field by field what was to be kept of it: the
/// country that blocked it and the country of its address are two things. The
/// time that it took is in whole milliseconds, as far as 64 bits go.
pub proof fn law_a_record_keeps_every_field(
    meta: QueryLogMeta,
    now: i128,
    elapsed_nanos: u128,
    i: int,
)
    ensures
        record_of(meta, now, elapsed_nanos).timestamp == now,
        record_of(meta, now, elapsed_nanos).domain == meta.domain@,
        record_of(meta, now, elapsed_nanos).qtype == meta.qtype,
        record_of(meta, now, elapsed_nanos).decision == meta.decision,
        record_of(meta, now, elapsed_nanos).decision_source == meta.decision_source,
        record_of(meta, now, elapsed_nanos).voters.len() == meta.voters@.len(),
        0 <= i < meta.voters@.len() ==> record_of(meta, now, elapsed_nanos).voters[i]
            == meta.voters@[i]@,
        match meta.geoip_country {
            Some(code) => record_of(meta, now, elapsed_nanos).geoip_country == Some(code@),
            None => record_of(meta, now, elapsed_nanos).geoip_country is None,
        },
        match meta.resolved_ip_country {
            Some(code) => record_of(meta, now, elapsed_nanos).resolved_ip_country == Some(code@),
            None => record_of(meta, now, elapsed_nanos).resolved_ip_country is None,
        },
        record_of(meta, now, elapsed_nanos).latency_ms * 1_000_000 <= elapsed_nanos,
        record_of(meta, now, elapsed_nanos).latency_ms == u64::MAX || elapsed_nanos < (record_of(
            meta,
            now,
            elapsed_nanos,
        ).latency_ms + 1) * 1_000_000,
{
}

/// The source after the stored credentials were read: MaxMind's with exactly those,
/// the one that needs none where there are none, and the one in use where they
/// could not be read.
pub proof fn law_which_source_comes_into_use(
    credentials: Result<Option<MaxmindCredentials>, CredentialsError>,
    current: GeoipSource,
)
    ensures
        credentials is Err ==> source_from(credentials, current) == current,
        credentials is Ok ==> match source_from(credentials, current) {
            GeoipSource::Maxmind(used) => (credentials->Ok_0) == Some(used),
            GeoipSource::DbIpLite => (credentials->Ok_0) is None,
        },
{
}

/// What settings that were read change: the timeout, whether the baseline is served
/// where no voter can be reached, the voters, the cache with its settings, and the
/// blocked countries. All else stays.
pub proof fn law_what_read_settings_change<C, K, N, B>(
    state: AppState<C, K, N, B>,
    config: ResolverConfig,
    cache: K,
)
    ensures
        ({
            let after = with_config(state, config, cache);
            &&& after.runtime.timeout.mode == config.timeout_mode
            &&& after.runtime.timeout.duration_nanos == config.timeout_ms * 1_000_000
            &&& after.runtime.serve_baseline_when_filters_unreachable
                == config.serve_baseline_when_filters_unreachable
            &&& after.providers == config.providers
            &&& after.cache.cache == cache
            &&& after.cache.config == config.cache
            &&& after.geoip_countries == config.geoip.blocked_countries
            &&& after.client == state.client
            &&& after.overrides == state.overrides
            &&& after.geoip == state.geoip
            &&& after.geoip_source == state.geoip_source
            &&& after.geoip_wake == state.geoip_wake
            &&& after.maxmind_health == state.maxmind_health
            &&& after.reachability == state.reachability
            &&& after.baseline == state.baseline
            &&& after.query_log == state.query_log
            &&& after.persist == state.persist
            &&& after.in_flight == state.in_flight
            &&& after.shutdown == state.shutdown
        }),
{
}

/// What is written after a change: every setting as it is in use, to the settings
/// file; nothing where there is no directory for it.
pub proof fn law_what_is_written_after_a_change<C, K, N, B>(
    state: AppState<C, K, N, B>,
    save: Option<Save>,
)
    requires
        state.writes(save),
    ensures
        save is Some <==> state.persist.paths is Some,
        save matches Some(s) ==> {
            &&& s.path == (state.persist.paths->0).config
            &&& s.config.port == state.persist.port
            &&& s.config.timeout_mode == state.runtime.timeout.mode
            &&& s.config.timeout_ms * 1_000_000 <= state.runtime.timeout.duration_nanos
            &&& s.config.timeout_ms == u32::MAX || state.runtime.timeout.duration_nanos < (
            s.config.timeout_ms + 1) * 1_000_000
            &&& s.config.providers@ == state.providers@
            &&& s.config.cache@ == state.cache.config@
            &&& s.config.geoip.blocked_countries@.len() == state.geoip_countries@.len()
            &&& forall|i: int|
                0 <= i < state.geoip_countries@.len() ==> (
                #[trigger] s.config.geoip.blocked_countries@[i])@ == state.geoip_countries@[i]@
            &&& s.config.serve_baseline_when_filters_unreachable
                == state.runtime.serve_baseline_when_filters_unreachable
            &&& s.config.persist_query_log == state.persist.persist_query_log
            &&& s.config.persist_cache == state.persist.persist_cache
        },
{
    config::law_times_are_rounded_down(state.runtime.timeout.duration_nanos);
    if let Some(s) = save {
        config::law_settings_are_what_their_fields_hold(s.config);
        assert(text::texts(s.config.geoip.blocked_countries@) == text::texts(
            state.geoip_countries@,
        ));
        assert forall|i: int| 0 <= i < state.geoip_countries@.len() implies (
        #[trigger] s.config.geoip.blocked_countries@[i])@ == state.geoip_countries@[i]@ by {
            assert(text::texts(s.config.geoip.blocked_countries@)[i] == text::texts(
                state.geoip_countries@,
            )[i]);
        }
        assert(text::texts(state.geoip_countries@).len() == state.geoip_countries@.len());
    }
}

/// The settings in use are those that the state holds.
pub proof fn law_the_settings_in_use<C, K, N, B>(state: AppState<C, K, N, B>, i: int)
    ensures
        state.live().port == state.persist.port,
        state.live().timeout_mode == state.runtime.timeout.mode,
        state.live().timeout_ms * 1_000_000 <= state.runtime.timeout.duration_nanos,
        state.live().timeout_ms == u32::MAX || state.runtime.timeout.duration_nanos < (
        state.live().timeout_ms + 1) * 1_000_000,
        state.live().providers == state.providers@,
        state.live().cache == state.cache.config@,
        state.live().blocked_countries.len() == state.geoip_countries@.len(),
        0 <= i < state.geoip_countries@.len() ==> state.live().blocked_countries[i]
            == state.geoip_countries@[i]@,
        state.live().serve_baseline_when_filters_unreachable
            == state.runtime.serve_baseline_when_filters_unreachable,
        state.live().persist_query_log == state.persist.persist_query_log,
        state.live().persist_cache == state.persist.persist_cache,
{
}

/// The override lists are written to their own file, not to that of the settings.
pub proof fn law_where_the_lists_are_written<C, K, N, B>(state: AppState<C, K, N, B>)
    ensures
        state.overrides_file() is Some <==> state.persist.paths is Some,
        state.overrides_file() matches Some(file) ==> file == (state.persist.paths->0).overrides,
{
}

/// A country that is added comes last where the list does not hold it, and all
/// others stay in their places. Removing one takes every entry of it out and keeps
/// the order of the others.
pub proof fn law_lists_of_countries(
    countries: Seq<Seq<char>>,
    code: Seq<char>,
    other: spec_fn(Seq<char>) -> bool,
)
    requires
        forall|country: Seq<char>| #[trigger] other(country) <==> country != code,
    ensures
        countries.contains(code) ==> with_country(countries, code) == countries,
        !countries.contains(code) ==> with_country(countries, code) == countries + seq![code],
        without_country(countries, code) == countries.filter(other),
{
    assert(other_country(code) =~= other);
    if !countries.contains(code) {
        assert(with_country(countries, code) =~= countries + seq![code]);
    }
}

/// What is shown of credentials that were not stored: the account, that they are
/// neither in use nor stored and that nobody was asked of them, and how the last
/// refresh went.
pub proof fn law_what_is_shown_of_credentials_not_stored(
    view: MaxmindCredentialsView,
    account: Seq<char>,
    health: MaxmindHealth,
)
    ensures
        not_stored(view, account, health) <==> !view.configured && !view.persisted && (
        view.account_id matches Some(shown) && shown@ == account) && view.check
            is Skipped && view.refresh_health == health,
{
}

/// Statistics count the queries that are being answered, and of the answered ones
/// those that are at most a day old: one for each place of the log with such a
/// record.
pub proof fn law_what_the_statistics_count<C, K, N, B, S, F: Fn(&[LogEntry]) -> S>(
    state: AppState<C, K, N, B>,
    now: i128,
    compute: F,
    stats: AdminStats<S>,
    young: spec_fn(query_log::LogRecord) -> bool,
)
    requires
        state.counts(now, compute, stats),
        forall|record: query_log::LogRecord| #[trigger]
            young(record) <==> now - record.timestamp <= 86_400_000_000_000,
    ensures
        stats.in_flight == state.in_flight,
        stats.total == state.query_log@.filter(young).len(),
        exists|entries: &[LogEntry]|
            query_log::records(entries@) == state.query_log@.filter(young)
                && #[trigger] compute.ensures((entries,), stats.log),
{
    assert(query_log::recent(now as int) =~= young);
}

} // verus!
