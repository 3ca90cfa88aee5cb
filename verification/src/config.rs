//! Settings of the service.
use vstd::prelude::*;
use crate::text;
use crate::upstream::ProviderEntry;

verus! {

/// How the personal zone decides which hosts belong to it.
#[derive(Debug, Clone, Copy, PartialEq, Eq, Structural)]
pub struct PersonalZoneConfig {
    /// Whether the personal zone is in use.
    pub enabled: bool,
    /// Over how many days visits are counted for the frequency ranking.
    pub frequency_window_days: u32,
    /// How many places the frequency ranking has.
    pub frequency_top_n: u32,
    /// Over how many days visited days are counted.
    pub regularity_window_days: u32,
    /// On how many of those days a host must have been visited.
    pub regularity_min_days: u32,
}

/// What a voter that does not answer in time counts as.
#[derive(Debug, Clone, Copy, PartialEq, Eq, Structural)]
pub enum TimeoutMode {
    /// As one that allows.
    FailOpen,
    /// As one that blocks.
    FailClosed,
    /// As none, with the answer marked.
    Degraded,
}

/// How long voters are waited for.
#[derive(Debug, Clone, Copy, PartialEq, Eq, Structural)]
pub struct TimeoutConfig {
    /// What a late voter counts as.
    pub mode: TimeoutMode,
    /// The time in nanoseconds.
    pub duration_nanos: u128,
}

/// Nanoseconds in a millisecond.
pub const NANOS_PER_MILLI: u128 = 1_000_000;

/// A time in whole milliseconds, as far as `u32` goes.
pub open spec fn whole_millis(nanos: u128) -> u32 {
    if nanos / NANOS_PER_MILLI > u32::MAX {
        u32::MAX
    } else {
        (nanos / NANOS_PER_MILLI) as u32
    }
}

/// A time in whole milliseconds, rounded down, as far as `u32` goes.
pub fn timeout_ms(duration_nanos: u128) -> (millis: u32)
    ensures
        millis == whole_millis(duration_nanos),
{
    let millis: u128 = duration_nanos / NANOS_PER_MILLI;
    if millis > u32::MAX as u128 {
        u32::MAX
    } else {
        millis as u32
    }
}

/// The times of the cache in seconds, and its size.
#[derive(Debug, Clone, Copy, PartialEq, Eq, Structural)]
pub struct CacheConfigSecs {
    /// The shortest time that an answer is kept.
    pub clamp_min_secs: u64,
    /// The longest time that an answer is kept.
    pub clamp_max_secs: u64,
    /// How long a block is kept.
    pub block_verdict_ttl_secs: u64,
    /// How long past its time an answer may still serve.
    pub stale_grace_secs: u64,
    /// The most answers that are kept.
    pub max_capacity: u64,
}

/// Why settings of the cache are refused.
#[derive(Debug, Clone, Copy, PartialEq, Eq, Structural)]
pub enum CacheConfigError {
    /// The shortest time is longer than the longest.
    ClampMinExceedsMax,
}

/// Settings of the cache. The shortest time is never longer than the longest.
#[derive(Debug, Clone, Copy, PartialEq, Eq, Structural)]
pub struct CacheConfig {
    secs: CacheConfigSecs,
}

impl View for CacheConfig {
    type V = CacheConfigSecs;

    closed spec fn view(&self) -> CacheConfigSecs {
        self.secs
    }
}

impl CacheConfig {
    #[verifier::type_invariant]
    spec fn inv(self) -> bool {
        self.secs.clamp_min_secs <= self.secs.clamp_max_secs
    }

    /// Settings, unless the shortest time is longer than the longest.
    pub fn new(secs: CacheConfigSecs) -> (r: Result<CacheConfig, CacheConfigError>)
        ensures
            match r {
                Ok(config) => config@ == secs && secs.clamp_min_secs <= secs.clamp_max_secs,
                Err(e) => secs.clamp_min_secs > secs.clamp_max_secs && e
                    == CacheConfigError::ClampMinExceedsMax,
            },
    {
        if secs.clamp_min_secs > secs.clamp_max_secs {
            return Err(CacheConfigError::ClampMinExceedsMax);
        }
        Ok(CacheConfig { secs })
    }

    /// The times in seconds, and the size.
    pub fn to_secs(&self) -> (secs: CacheConfigSecs)
        ensures
            secs == self@,
            secs.clamp_min_secs <= secs.clamp_max_secs,
    {
        proof {
            use_type_invariant(self);
        }
        self.secs
    }
}

impl Default for CacheConfig {
    /// Between half a minute and a day for an answer, a day for a block and a
    /// day of grace, for ten thousand answers.
    fn default() -> (config: Self)
        ensures
            config@ == (CacheConfigSecs {
                clamp_min_secs: 30,
                clamp_max_secs: 86_400,
                block_verdict_ttl_secs: 86_400,
                stale_grace_secs: 86_400,
                max_capacity: 10_000,
            }),
    {
        CacheConfig {
            secs: CacheConfigSecs {
                clamp_min_secs: 30,
                clamp_max_secs: 86_400,
                block_verdict_ttl_secs: 86_400,
                stale_grace_secs: 86_400,
                max_capacity: 10_000,
            },
        }
    }
}

/// Settings of the country filter.
#[derive(Debug)]
pub struct GeoipConfig {
    /// The blocked countries.
    pub blocked_countries: Vec<String>,
}

/// Why settings are refused.
#[derive(Debug, Clone, Copy, PartialEq, Eq, Structural)]
pub enum ConfigError {
    /// The file could not be read.
    Io,
    /// It is not of the form of a settings file.
    Parse,
    /// It names port 0.
    ZeroPort,
    /// It names a timeout of 0.
    ZeroTimeout,
    /// It names a country by something else than two letters.
    InvalidCountryCode,
    /// Its cache settings are refused.
    Cache(CacheConfigError),
}

/// Everything that stands in the settings file.
#[derive(Debug)]
pub struct ResolverConfig {
    /// The port that the service listens on.
    pub port: u16,
    /// What a late voter counts as.
    pub timeout_mode: TimeoutMode,
    /// How long voters are waited for, in milliseconds.
    pub timeout_ms: u32,
    /// The voters, in order.
    pub providers: Vec<ProviderEntry>,
    /// The cache.
    pub cache: CacheConfig,
    /// The country filter.
    pub geoip: GeoipConfig,
    /// Whether the baseline's answer is served where no voter can be reached.
    pub serve_baseline_when_filters_unreachable: bool,
    /// Whether the query log is kept on disk.
    pub persist_query_log: bool,
    /// Whether the cache is kept on disk.
    pub persist_cache: bool,
}

/// What a [`ResolverConfig`] says.
#[verifier::ext_equal]
pub struct Settings {
    /// The port.
    pub port: u16,
    /// What a late voter counts as.
    pub timeout_mode: TimeoutMode,
    /// How long voters are waited for.
    pub timeout_ms: u32,
    /// The voters.
    pub providers: Seq<ProviderEntry>,
    /// The cache.
    pub cache: CacheConfigSecs,
    /// The blocked countries.
    pub blocked_countries: Seq<Seq<char>>,
    /// Whether the baseline's answer is served where no voter can be reached.
    pub serve_baseline_when_filters_unreachable: bool,
    /// Whether the query log is kept on disk.
    pub persist_query_log: bool,
    /// Whether the cache is kept on disk.
    pub persist_cache: bool,
}

impl View for ResolverConfig {
    type V = Settings;

    open spec fn view(&self) -> Settings {
        Settings {
            port: self.port,
            timeout_mode: self.timeout_mode,
            timeout_ms: self.timeout_ms,
            providers: self.providers@,
            cache: self.cache@,
            blocked_countries: text::texts(self.geoip.blocked_countries@),
            serve_baseline_when_filters_unreachable: self.serve_baseline_when_filters_unreachable,
            persist_query_log: self.persist_query_log,
            persist_cache: self.persist_cache,
        }
    }
}

impl ResolverConfig {
    /// Settings that were read from the file, unless they would leave the
    /// service deaf: with port 0 or a timeout of 0. Neither is replaced by
    /// another value.
    pub fn checked(self) -> (r: Result<ResolverConfig, ConfigError>)
        ensures
            match r {
                Ok(config) => config == self && self.port != 0 && self.timeout_ms != 0,
                Err(e) => if self.port == 0 {
                    e == ConfigError::ZeroPort
                } else {
                    self.timeout_ms == 0 && e == ConfigError::ZeroTimeout
                },
            },
    {
        if self.port == 0 {
            return Err(ConfigError::ZeroPort);
        }
        if self.timeout_ms == 0 {
            return Err(ConfigError::ZeroTimeout);
        }
        Ok(self)
    }
}

/// Whether a text is a country code in either case.
pub open spec fn country_code(code: Seq<char>) -> bool {
    code.len() == 2 && text::ascii_letter(code[0]) && text::ascii_letter(code[1])
}

/// The country code that a text names, in upper case.
pub fn validate_country_code(raw: &str) -> (r: Result<String, ConfigError>)
    ensures
        match r {
            Ok(code) => country_code(raw@) && code@ == text::upper_text(raw@),
            Err(e) => !country_code(raw@) && e == ConfigError::InvalidCountryCode,
        },
{
    let chars = text::chars_of(raw);
    if chars.len() != 2 || !text::is_ascii_letter(chars[0]) || !text::is_ascii_letter(chars[1]) {
        return Err(ConfigError::InvalidCountryCode);
    }
    Ok(text::string_of(&text::to_upper(&chars)))
}

/// A country code in upper case is its own.
pub proof fn law_a_country_code_is_stable(raw: Seq<char>)
    requires
        country_code(raw),
    ensures
        country_code(text::upper_text(raw)),
        text::upper_text(text::upper_text(raw)) == text::upper_text(raw),
{
    assert(text::upper_text(text::upper_text(raw)) =~= text::upper_text(raw));
}

/// A time in whole milliseconds is the last one that is not over, as far as 32
/// bits go.
pub proof fn law_times_are_rounded_down(nanos: u128)
    ensures
        whole_millis(nanos) * 1_000_000 <= nanos,
        whole_millis(nanos) == u32::MAX || nanos < (whole_millis(nanos) + 1) * 1_000_000,
{
}

/// A country code is two letters of ASCII, and the code that a text names is the
/// same two letters as capitals.
pub proof fn law_a_country_code_is_two_letters(raw: Seq<char>)
    ensures
        country_code(raw) <==> raw.len() == 2 && forall|i: int|
            0 <= i < raw.len() ==> ('a' <= #[trigger] raw[i] && raw[i] <= 'z') || ('A' <= raw[i]
                && raw[i] <= 'Z'),
        country_code(raw) ==> text::upper_text(raw).len() == 2 && forall|i: int|
            0 <= i < 2 ==> 'A' <= #[trigger] text::upper_text(raw)[i] && text::upper_text(raw)[i]
                <= 'Z' && (text::upper_text(raw)[i] == raw[i] || text::upper_text(raw)[i] as int
                + 32 == raw[i] as int),
{
    if raw.len() == 2 && forall|i: int|
        0 <= i < raw.len() ==> ('a' <= #[trigger] raw[i] && raw[i] <= 'z') || ('A' <= raw[i]
            && raw[i] <= 'Z') {
        assert(text::ascii_letter(raw[0]) && text::ascii_letter(raw[1]));
    }
    if country_code(raw) {
        text::law_case_changes_letters_alone(raw, 0);
        text::law_case_changes_letters_alone(raw, 1);
        assert forall|i: int| 0 <= i < 2 implies 'A' <= #[trigger] text::upper_text(raw)[i]
            && text::upper_text(raw)[i] <= 'Z' && (text::upper_text(raw)[i] == raw[i]
            || text::upper_text(raw)[i] as int + 32 == raw[i] as int) by {
            assert(i == 0 || i == 1);
        }
    }
}

/// What settings say is what their fields hold.
pub proof fn law_settings_are_what_their_fields_hold(config: ResolverConfig)
    ensures
        config@.port == config.port,
        config@.timeout_mode == config.timeout_mode,
        config@.timeout_ms == config.timeout_ms,
        config@.providers == config.providers@,
        config@.cache == config.cache@,
        config@.blocked_countries.len() == config.geoip.blocked_countries@.len(),
        forall|i: int|
            0 <= i < config.geoip.blocked_countries@.len() ==> #[trigger]
            config@.blocked_countries[i] == config.geoip.blocked_countries@[i]@,
        config@.serve_baseline_when_filters_unreachable
            == config.serve_baseline_when_filters_unreachable,
        config@.persist_query_log == config.persist_query_log,
        config@.persist_cache == config.persist_cache,
{
}

} // verus!
