//! Keeping the personal zone in its encrypted file.
//!
//! The same file-keeping as for the query log, with a key of its own: the
//! whole file is rewritten at intervals, and read back at the start.
use vstd::prelude::*;
use crate::config::PersonalZoneConfig;
use crate::encrypted_file;
use crate::encrypted_file::FileKind;
use crate::key_store::{KeyStoreError, PersistenceKey};
use crate::log_persist;
use crate::log_persist::{Flusher, LoadError, LoadNote, PersistError};
use crate::paths::{file_in, FilePath};
use crate::personal_zone_stats;
use crate::personal_zone_stats::{
    window_len_from_config, DayIndex, PersistedPersonalZone, PersonalZoneStats,
};
use crate::text;

verus! {

/// The file's name.
pub const FILE_NAME: &'static str = "personal-zone.enc";

/// The content of the zone's file, given the stored form of its statistics.
pub fn persist_snapshot(plaintext: Option<Vec<u8>>, key: &[u8; 32]) -> (r: Result<
    Vec<u8>,
    PersistError,
>)
    requires
        plaintext matches Some(p) ==> p@.len() + encrypted_file::MIN_LEN <= isize::MAX,
    ensures
        log_persist::snapshot_of(key@, FileKind::PersonalZone, plaintext, r),
{
    log_persist::seal_snapshot(key, FileKind::PersonalZone, plaintext)
}

/// What the service starts with.
pub struct PersonalZoneInit {
    /// The statistics.
    pub stats: PersonalZoneStats,
    /// The hosts that belong to the zone by them.
    pub zone: Vec<String>,
    /// Where they are written to, if they are.
    pub flusher: Option<Flusher>,
}

/// What was just learnt.
#[allow(inconsistent_fields)]
pub enum LoadEvent {
    /// The service starts.
    Start {
        /// Its directory.
        app_data: Option<String>,
    },
    /// The key was looked up.
    Key {
        /// The file.
        path: FilePath,
        /// Whether it is there.
        ciphertext_present: bool,
        /// The key.
        key: Result<PersistenceKey, KeyStoreError>,
    },
    /// The file was read.
    Read {
        /// The file.
        path: FilePath,
        /// The key.
        key: [u8; 32],
        /// Its content.
        raw: Option<Vec<u8>>,
    },
    /// What it holds was parsed.
    Parsed {
        /// The file.
        path: FilePath,
        /// The key.
        key: [u8; 32],
        /// The statistics, if it is of the stored form.
        persisted: Option<PersistedPersonalZone>,
    },
}

/// What is to be done next.
pub enum LoadStep {
    /// Look up the key for this file.
    ObtainKey(FilePath),
    /// Read the file.
    ReadFile {
        /// The file.
        path: FilePath,
        /// The key.
        key: [u8; 32],
    },
    /// Parse this.
    Parse {
        /// The file.
        path: FilePath,
        /// The key.
        key: [u8; 32],
        /// What the file holds.
        plaintext: Vec<u8>,
    },
    /// Start with this. Where `move_aside` holds, the file is moved aside
    /// first.
    Done {
        /// What to start with.
        init: PersonalZoneInit,
        /// Whether the file is to be moved aside.
        move_aside: bool,
        /// What became of it.
        note: LoadNote,
    },
}

/// Whether statistics know nothing yet on a given day.
pub open spec fn blank(stats: PersonalZoneStats, cfg: PersonalZoneConfig, today: DayIndex) -> bool {
    &&& stats.wf()
    &&& stats.hosts() == Map::<Seq<char>, personal_zone_stats::Track>::empty()
    &&& stats.spec_today() == today.0
    &&& stats.window() == personal_zone_stats::window_of(cfg)
}

/// Whether `zone` holds, once each, the hosts that belong to the zone by
/// `stats`.
pub open spec fn zone_of(
    stats: PersonalZoneStats,
    cfg: PersonalZoneConfig,
    zone: Seq<String>,
) -> bool {
    &&& text::texts(zone).no_duplicates()
    &&& forall|name: Seq<char>| #[trigger]
        text::texts(zone).contains(name) <==> personal_zone_stats::qualifies(
            stats.hosts(),
            cfg,
            stats.window(),
            name,
        )
}

/// Whether `stats` are what stored statistics stand for on a given day.
pub open spec fn stands_for(
    stats: PersonalZoneStats,
    persisted: PersistedPersonalZone,
    cfg: PersonalZoneConfig,
    today: DayIndex,
) -> bool {
    &&& stats.wf()
    &&& stats.window() == personal_zone_stats::window_of(cfg)
    &&& stats.spec_today() == if today.0 > persisted.today {
        today.0 as nat
    } else {
        persisted.today as nat
    }
    &&& personal_zone_stats::capped(
        personal_zone_stats::rolled(
            personal_zone_stats::restored(
                personal_zone_stats::stored(persisted.domains@),
                persisted.today as nat,
                stats.window(),
            ),
            persisted.today as nat,
            today.0 as nat,
            stats.window(),
        ),
        stats.hosts(),
    )
}

/// Whether a step starts with an empty zone that is not kept.
pub open spec fn not_kept(
    step: LoadStep,
    cfg: PersonalZoneConfig,
    today: DayIndex,
    why: LoadNote,
) -> bool {
    step matches LoadStep::Done { init, move_aside, note } && blank(init.stats, cfg, today)
        && init.zone@.len() == 0 && init.flusher is None && !move_aside && note == why
}

/// Whether a step starts with blank statistics and keeps them in this file.
pub open spec fn kept_blank(
    step: LoadStep,
    cfg: PersonalZoneConfig,
    today: DayIndex,
    path: FilePath,
    key: [u8; 32],
    aside: bool,
    why: LoadNote,
) -> bool {
    step matches LoadStep::Done { init, move_aside, note } && blank(init.stats, cfg, today)
        && zone_of(init.stats, cfg, init.zone@) && init.flusher == Some(Flusher { path, key })
        && move_aside == aside && note == why
}

fn start_without(cfg: &PersonalZoneConfig, today: DayIndex, note: LoadNote) -> (step: LoadStep)
    ensures
        not_kept(step, *cfg, today, note),
{
    LoadStep::Done {
        init: PersonalZoneInit {
            stats: PersonalZoneStats::new(window_len_from_config(cfg), today),
            zone: Vec::new(),
            flusher: None,
        },
        move_aside: false,
        note,
    }
}

fn start_blank(
    cfg: &PersonalZoneConfig,
    today: DayIndex,
    path: FilePath,
    key: [u8; 32],
    move_aside: bool,
    note: LoadNote,
) -> (step: LoadStep)
    ensures
        kept_blank(step, *cfg, today, path, key, move_aside, note),
{
    let stats = PersonalZoneStats::new(window_len_from_config(cfg), today);
    let zone = zone_from_stats(&stats, cfg);
    LoadStep::Done {
        init: PersonalZoneInit { stats, zone, flusher: Some(Flusher { path, key }) },
        move_aside,
        note,
    }
}

/// The hosts that belong to the zone.
pub fn zone_from_stats(stats: &PersonalZoneStats, cfg: &PersonalZoneConfig) -> (zone: Vec<String>)
    requires
        stats.wf(),
    ensures
        zone_of(*stats, *cfg, zone@),
{
    stats.derive_qualifying_domains(cfg)
}

/// Reading the zone back. Nothing is looked up where the zone is switched off.
/// A file that cannot be read back is moved aside and the zone starts empty.
/// What is read back counts at once, before the first interval is over.
pub fn load_persisted_personal_zone(
    cfg: &PersonalZoneConfig,
    unix_seconds: u64,
    event: LoadEvent,
) -> (step: LoadStep)
    ensures
        ({
            let today = DayIndex(personal_zone_stats::day_of(unix_seconds));
            match event {
                LoadEvent::Start { app_data } => if !cfg.enabled {
                    not_kept(step, *cfg, today, LoadNote::Off)
                } else {
                    match app_data {
                        None => not_kept(step, *cfg, today, LoadNote::NoDirectory),
                        Some(dir) => step matches LoadStep::ObtainKey(path) && text::opt_text(
                            path.parent,
                        ) == Some(dir@) && path.name@ == FILE_NAME@,
                    }
                },
                LoadEvent::Key { path, ciphertext_present, key } => match key {
                    Err(e) => not_kept(step, *cfg, today, LoadNote::NoKey(e)),
                    Ok(k) => if k.orphaned_ciphertext {
                        kept_blank(step, *cfg, today, path, k.key, true, LoadNote::Orphaned)
                    } else if ciphertext_present {
                        step == (LoadStep::ReadFile { path, key: k.key })
                    } else {
                        kept_blank(step, *cfg, today, path, k.key, false, LoadNote::Fresh)
                    },
                },
                LoadEvent::Read { path, key, raw } => match raw {
                    None => kept_blank(
                        step,
                        *cfg,
                        today,
                        path,
                        key,
                        true,
                        LoadNote::NotRestored(LoadError::Read),
                    ),
                    Some(bytes) => match encrypted_file::opened(
                        key@,
                        FileKind::PersonalZone,
                        bytes@,
                    ) {
                        Err(e) => kept_blank(
                            step,
                            *cfg,
                            today,
                            path,
                            key,
                            true,
                            LoadNote::NotRestored(LoadError::Decrypt(e)),
                        ),
                        Ok(content) => step matches LoadStep::Parse { path: p, key: k, plaintext }
                            && p == path && k == key && plaintext@ == content,
                    },
                },
                LoadEvent::Parsed { path, key, persisted } => match persisted {
                    None => kept_blank(
                        step,
                        *cfg,
                        today,
                        path,
                        key,
                        true,
                        LoadNote::NotRestored(LoadError::Parse),
                    ),
                    Some(p) => step matches LoadStep::Done { init, move_aside, note } && stands_for(
                        init.stats,
                        p,
                        *cfg,
                        today,
                    ) && zone_of(init.stats, *cfg, init.zone@) && init.flusher == Some(
                        Flusher { path, key },
                    ) && !move_aside && (note matches LoadNote::Restored(count) && count
                        == init.stats.hosts().len()),
                },
            }
        }),
{
    let today = DayIndex::from_unix_seconds(unix_seconds);
    match event {
        LoadEvent::Start { app_data } => {
            if !cfg.enabled {
                return start_without(cfg, today, LoadNote::Off);
            }
            match app_data {
                None => start_without(cfg, today, LoadNote::NoDirectory),
                Some(dir) => LoadStep::ObtainKey(file_in(dir.as_str(), FILE_NAME)),
            }
        },
        LoadEvent::Key { path, ciphertext_present, key } => match key {
            Err(error) => start_without(cfg, today, LoadNote::NoKey(error)),
            Ok(key) => {
                if key.orphaned_ciphertext {
                    start_blank(cfg, today, path, key.key, true, LoadNote::Orphaned)
                } else if ciphertext_present {
                    LoadStep::ReadFile { path, key: key.key }
                } else {
                    start_blank(cfg, today, path, key.key, false, LoadNote::Fresh)
                }
            },
        },
        LoadEvent::Read { path, key, raw } => match raw {
            None => start_blank(
                cfg,
                today,
                path,
                key,
                true,
                LoadNote::NotRestored(LoadError::Read),
            ),
            Some(raw) => match encrypted_file::open(&key, FileKind::PersonalZone, raw.as_slice()) {
                Ok(plaintext) => LoadStep::Parse { path, key, plaintext },
                Err(error) => start_blank(
                    cfg,
                    today,
                    path,
                    key,
                    true,
                    LoadNote::NotRestored(LoadError::Decrypt(error)),
                ),
            },
        },
        LoadEvent::Parsed { path, key, persisted } => match persisted {
            None => start_blank(
                cfg,
                today,
                path,
                key,
                true,
                LoadNote::NotRestored(LoadError::Parse),
            ),
            Some(persisted) => {
                let stats = PersonalZoneStats::from_persisted(
                    persisted,
                    today,
                    window_len_from_config(cfg),
                );
                let count: usize = stats.tracked_domain_count();
                let zone = zone_from_stats(&stats, cfg);
                LoadStep::Done {
                    init: PersonalZoneInit { stats, zone, flusher: Some(Flusher { path, key }) },
                    move_aside: false,
                    note: LoadNote::Restored(count),
                }
            },
        },
    }
}

/// One turn of the task that keeps the zone: moves the statistics to today,
/// and gives the hosts that then belong to the zone and what is to be written.
/// Where the zone has been switched off meanwhile, nothing happens.
pub fn tick(stats: &mut PersonalZoneStats, cfg: &PersonalZoneConfig, unix_seconds: u64) -> (r:
    Option<(Vec<String>, PersistedPersonalZone)>)
    requires
        old(stats).wf(),
    ensures
        final(stats).wf(),
        final(stats).window() == old(stats).window(),
        r is Some <==> cfg.enabled,
        match r {
            None => *final(stats) == *old(stats),
            Some(turn) => {
                let today = personal_zone_stats::day_of(unix_seconds) as nat;
                &&& final(stats).spec_today() == if today > old(stats).spec_today() {
                    today
                } else {
                    old(stats).spec_today()
                }
                &&& final(stats).hosts() == personal_zone_stats::rolled(
                    old(stats).hosts(),
                    old(stats).spec_today(),
                    today,
                    old(stats).window(),
                )
                &&& zone_of(*final(stats), *cfg, turn.0@)
                &&& turn.1.today == final(stats).spec_today()
                &&& personal_zone_stats::stores(
                    personal_zone_stats::stored(turn.1.domains@),
                    final(stats).hosts(),
                )
            },
        },
{
    if !cfg.enabled {
        return None;
    }
    stats.rotate_day(DayIndex::from_unix_seconds(unix_seconds));
    let zone = zone_from_stats(stats, cfg);
    let persisted = stats.to_persisted();
    Some((zone, persisted))
}

/// Statistics that know nothing yet have no host, end on the given day and are as
/// long as the settings need.
pub proof fn law_what_knows_nothing_yet(
    stats: PersonalZoneStats,
    cfg: PersonalZoneConfig,
    today: DayIndex,
    name: Seq<char>,
)
    requires
        blank(stats, cfg, today),
    ensures
        stats.wf(),
        !stats.hosts().contains_key(name),
        stats.spec_today() == today.0,
        stats.window() == personal_zone_stats::window_of(cfg),
        !personal_zone_stats::qualifies(stats.hosts(), cfg, stats.window(), name),
{
}

/// The zone holds a host if and only if it qualifies, and holds it once.
pub proof fn law_what_the_zone_holds(
    stats: PersonalZoneStats,
    cfg: PersonalZoneConfig,
    zone: Seq<String>,
    name: Seq<char>,
)
    requires
        zone_of(stats, cfg, zone),
    ensures
        (exists|i: int| 0 <= i < zone.len() && (#[trigger] zone[i])@ == name)
            <==> personal_zone_stats::qualifies(stats.hosts(), cfg, stats.window(), name),
        forall|i: int, j: int|
            0 <= i < j < zone.len() ==> (#[trigger] zone[i])@ != (#[trigger] zone[j])@,
{
    let names = text::texts(zone);
    assert(names.contains(name) <==> personal_zone_stats::qualifies(
        stats.hosts(),
        cfg,
        stats.window(),
        name,
    ));
    if names.contains(name) {
        let i = choose|i: int| 0 <= i < names.len() && names[i] == name;
        assert(zone[i]@ == name);
    }
    if exists|i: int| 0 <= i < zone.len() && (#[trigger] zone[i])@ == name {
        let i = choose|i: int| 0 <= i < zone.len() && (#[trigger] zone[i])@ == name;
        assert(names[i] == name);
    }
    assert forall|i: int, j: int| 0 <= i < j < zone.len() implies (#[trigger] zone[i])@ != (
    #[trigger] zone[j])@ by {
        assert(names[i] != names[j]);
    }
}

/// What stored statistics stand for: the hosts of the list as of the day it was
/// written, moved on to today, cut to the cap; a day before that of the list does
/// not move them back.
pub proof fn law_what_stored_statistics_stand_for(
    stats: PersonalZoneStats,
    persisted: PersistedPersonalZone,
    cfg: PersonalZoneConfig,
    today: DayIndex,
    window: nat,
)
    requires
        window == personal_zone_stats::window_of(cfg),
    ensures
        stands_for(stats, persisted, cfg, today) <==> stats.wf() && stats.window() == window
            && stats.spec_today() == (if persisted.today < today.0 {
            today.0
        } else {
            persisted.today
        }) && personal_zone_stats::capped(
            personal_zone_stats::rolled(
                personal_zone_stats::restored(
                    personal_zone_stats::stored(persisted.domains@),
                    persisted.today as nat,
                    window,
                ),
                persisted.today as nat,
                today.0 as nat,
                window,
            ),
            stats.hosts(),
        ),
{
}

/// A start without a file knows nothing, has an empty zone, is written nowhere and
/// moves nothing aside; one with a file that could not be used is written to it.
pub proof fn law_starts_that_know_nothing(
    step: LoadStep,
    cfg: PersonalZoneConfig,
    today: DayIndex,
    path: FilePath,
    key: [u8; 32],
    aside: bool,
    why: LoadNote,
)
    ensures
        not_kept(step, cfg, today, why) ==> (step matches LoadStep::Done { init, move_aside, note }
            && blank(init.stats, cfg, today) && init.zone@.len() == 0 && init.flusher is None
            && !move_aside && note == why),
        kept_blank(step, cfg, today, path, key, aside, why) ==> (step matches LoadStep::Done {
            init,
            move_aside,
            note,
        } && blank(init.stats, cfg, today) && init.zone@.len() == 0 && (init.flusher matches Some(
            flusher,
        ) && flusher.path == path && flusher.key == key) && move_aside == aside && note == why),
{
    if kept_blank(step, cfg, today, path, key, aside, why) {
        if let LoadStep::Done { init, move_aside, note } = step {
            if init.zone@.len() > 0 {
                law_what_the_zone_holds(init.stats, cfg, init.zone@, init.zone@[0]@);
                law_what_knows_nothing_yet(init.stats, cfg, today, init.zone@[0]@);
            }
        }
    }
}

} // verus!
