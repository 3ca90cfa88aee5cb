use dnsqb_service::config::PersonalZoneConfig;
use dnsqb_service::encrypted_file::{open, EncryptedFileError, FileKind};
use dnsqb_service::key_store::{KeyStoreError, PersistenceKey};
use dnsqb_service::log_persist;
use dnsqb_service::log_persist::{
    load_persisted_query_log, orphan_path, run_query_log_persister, LoadError, LoadNote,
    PersistError, PersisterEvent, QueryLogInit,
};
use dnsqb_service::paths::{file_in, FilePath};
use dnsqb_service::persist_dto::{
    static_error_kind, PDecision, PDecisionSource, PVerdict, PersistedFileV1, PersistedLogEntry,
    PersistedVoter,
};
use dnsqb_service::personal_zone_persist;
use dnsqb_service::personal_zone_persist::{
    load_persisted_personal_zone, tick, zone_from_stats, PersonalZoneInit,
};
use dnsqb_service::personal_zone_stats::{DayIndex, PersistedPersonalZone, PersonalZoneStats};
use dnsqb_service::query_log::{
    Decision, DecisionSource, LogEntry, QueryLog, VoterRecord, VoterVerdict,
};
use serde_json::Value;

const NOW: i128 = 1_700_000_000_123_000_000;
const NOW_SECONDS: u64 = 1_700_000_000;

fn sample_entry() -> LogEntry {
    LogEntry {
        timestamp: 1_700_000_000_123_000_000,
        domain: "example.com".to_string(),
        qtype: 28,
        decision: Decision::Blocked,
        decision_source: DecisionSource::BaselineFallback,
        voters: vec![
            VoterRecord {
                provider_id: "quad9".to_string(),
                verdict: VoterVerdict::Timeout,
                allow_ip_count: None,
                error_message: None,
            },
            VoterRecord {
                provider_id: "adguard".to_string(),
                verdict: VoterVerdict::Error,
                allow_ip_count: None,
                error_message: Some("http"),
            },
        ],
        geoip_country: None,
        resolved_ip_country: Some("US".to_string()),
        latency_ms: 42,
    }
}

fn sample() -> LogEntry {
    LogEntry {
        timestamp: NOW,
        domain: "persisted-example.test".to_string(),
        qtype: 1,
        decision: Decision::Allowed,
        decision_source: DecisionSource::Quorum,
        voters: Vec::new(),
        geoip_country: None,
        resolved_ip_country: Some("DE".to_string()),
        latency_ms: 7,
    }
}

fn words(value: &Option<String>) -> Value {
    match value {
        Some(text) => Value::from(text.clone()),
        None => Value::Null,
    }
}

fn object(members: Vec<(&str, Value)>) -> Value {
    let mut map = serde_json::Map::new();
    for (name, value) in members {
        map.insert(name.to_string(), value);
    }
    Value::Object(map)
}

fn voter_json(voter: &PersistedVoter) -> Value {
    object(vec![
        ("provider_id", Value::from(voter.provider_id.clone())),
        ("verdict", Value::from(format!("{:?}", voter.verdict))),
        (
            "allow_ip_count",
            voter.allow_ip_count.map_or(Value::Null, Value::from),
        ),
        ("error_message", words(&voter.error_message)),
    ])
}

fn entry_json(entry: &PersistedLogEntry) -> Value {
    object(vec![
        ("ts_millis", Value::from(entry.ts_millis)),
        ("domain", Value::from(entry.domain.clone())),
        ("qtype", Value::from(entry.qtype)),
        ("decision", Value::from(format!("{:?}", entry.decision))),
        (
            "decision_source",
            Value::from(format!("{:?}", entry.decision_source)),
        ),
        (
            "voters",
            Value::from(entry.voters.iter().map(voter_json).collect::<Vec<_>>()),
        ),
        ("geoip_country", words(&entry.geoip_country)),
        ("resolved_ip_country", words(&entry.resolved_ip_country)),
        ("latency_ms", Value::from(entry.latency_ms)),
    ])
}

fn to_json(entries: &[LogEntry]) -> Vec<u8> {
    let file = PersistedFileV1::of(entries);
    let list = file.entries.iter().map(entry_json).collect::<Vec<_>>();
    object(vec![("entries", Value::from(list))])
        .to_string()
        .into_bytes()
}

fn string(value: &Value, name: &str) -> Option<String> {
    Some(value.get(name)?.as_str()?.to_string())
}

fn voter_from(value: &Value) -> Option<PersistedVoter> {
    let verdicts = [
        PVerdict::Block,
        PVerdict::Allow,
        PVerdict::Timeout,
        PVerdict::Error,
        PVerdict::Canceled,
        PVerdict::Disabled,
    ];
    let name = string(value, "verdict")?;
    Some(PersistedVoter {
        provider_id: string(value, "provider_id")?,
        verdict: verdicts.into_iter().find(|v| format!("{v:?}") == name)?,
        allow_ip_count: value
            .get("allow_ip_count")?
            .as_u64()
            .and_then(|n| u32::try_from(n).ok()),
        error_message: string(value, "error_message"),
    })
}

fn entry_from(value: &Value) -> Option<PersistedLogEntry> {
    let decisions = [PDecision::Allowed, PDecision::Blocked, PDecision::Failed];
    let sources = [
        PDecisionSource::Allowlist,
        PDecisionSource::Blocklist,
        PDecisionSource::Cache,
        PDecisionSource::Quorum,
        PDecisionSource::Geoip,
        PDecisionSource::BaselineFallback,
    ];
    let decision = string(value, "decision")?;
    let source = string(value, "decision_source")?;
    let voters = value.get("voters")?.as_array()?;
    Some(PersistedLogEntry {
        ts_millis: value.get("ts_millis")?.as_u64()?,
        domain: string(value, "domain")?,
        qtype: u16::try_from(value.get("qtype")?.as_u64()?).ok()?,
        decision: decisions
            .into_iter()
            .find(|d| format!("{d:?}") == decision)?,
        decision_source: sources.into_iter().find(|s| format!("{s:?}") == source)?,
        voters: voters.iter().map(voter_from).collect::<Option<Vec<_>>>()?,
        geoip_country: string(value, "geoip_country"),
        resolved_ip_country: string(value, "resolved_ip_country"),
        latency_ms: value.get("latency_ms")?.as_u64()?,
    })
}

fn parse(json: &[u8]) -> Option<PersistedFileV1> {
    let value: Value = serde_json::from_slice(json).ok()?;
    let list = value.get("entries")?.as_array()?;
    Some(PersistedFileV1 {
        entries: list.iter().map(entry_from).collect::<Option<Vec<_>>>()?,
    })
}

fn from_json(json: &[u8]) -> Vec<LogEntry> {
    match parse(json) {
        Some(file) => file.into_entries(),
        None => panic!("the stored form must parse"),
    }
}

#[test]
fn round_trips_every_field_through_json() {
    let entries = vec![sample_entry()];
    let back = from_json(&to_json(&entries));
    assert_eq!(back.len(), 1);
    let (a, b) = (&entries[0], &back[0]);
    assert_eq!(a.timestamp, b.timestamp);
    assert_eq!(a.domain, b.domain);
    assert_eq!(a.qtype, b.qtype);
    assert_eq!(a.decision, b.decision);
    assert_eq!(a.decision_source, b.decision_source);
    assert_eq!(a.geoip_country, b.geoip_country);
    assert_eq!(a.resolved_ip_country, b.resolved_ip_country);
    assert_eq!(a.latency_ms, b.latency_ms);
    assert_eq!(a.voters.len(), b.voters.len());
    for (va, vb) in a.voters.iter().zip(&b.voters) {
        assert_eq!(va.provider_id, vb.provider_id);
        assert_eq!(va.verdict, vb.verdict);
        assert_eq!(va.allow_ip_count, vb.allow_ip_count);
        assert_eq!(va.error_message, vb.error_message);
    }
}

#[test]
fn every_decision_source_variant_survives_the_round_trip() {
    let sources = [
        DecisionSource::Allowlist,
        DecisionSource::Blocklist,
        DecisionSource::Cache,
        DecisionSource::Quorum,
        DecisionSource::Geoip,
        DecisionSource::BaselineFallback,
    ];
    let entries: Vec<LogEntry> = sources
        .iter()
        .map(|&s| {
            let mut e = sample_entry();
            e.decision_source = s;
            e.voters.clear();
            e
        })
        .collect();
    let back = from_json(&to_json(&entries));
    let got: Vec<DecisionSource> = back.iter().map(|e| e.decision_source).collect();
    assert_eq!(got, sources);
}

#[test]
fn every_decision_and_verdict_survives_the_round_trip() {
    for decision in [Decision::Allowed, Decision::Blocked, Decision::Failed] {
        assert_eq!(Decision::from(PDecision::from(decision)), decision);
    }
    for verdict in [
        VoterVerdict::Block,
        VoterVerdict::Allow,
        VoterVerdict::Timeout,
        VoterVerdict::Error,
        VoterVerdict::Canceled,
        VoterVerdict::Disabled,
    ] {
        assert_eq!(VoterVerdict::from(PVerdict::from(verdict)), verdict);
    }
}

#[test]
fn an_unknown_error_kind_string_becomes_none_not_a_leak() {
    assert_eq!(static_error_kind("http"), Some("http"));
    assert_eq!(static_error_kind("some-future-kind"), None);
}

#[test]
fn a_stored_text_that_is_no_error_kind_is_dropped() {
    let stored = PersistedVoter {
        provider_id: "quad9".to_string(),
        verdict: PVerdict::Error,
        allow_ip_count: None,
        error_message: Some("https://secret.example/".to_string()),
    };
    assert_eq!(stored.into_record().error_message, None);
    assert_eq!(static_error_kind("encode"), Some("encode"));
    assert_eq!(static_error_kind("decode"), Some("decode"));
}

#[test]
fn a_far_future_timestamp_does_not_panic_on_serialize() {
    let mut e = sample_entry();
    e.timestamp = NOW + 100 * 365 * 24 * 3600 * 1_000_000_000;
    assert_eq!(from_json(&to_json(&[e])).len(), 1);
}

#[test]
fn times_are_kept_to_the_millisecond_and_within_bounds() {
    let stored = |timestamp: i128| {
        let mut e = sample_entry();
        e.timestamp = timestamp;
        PersistedLogEntry::of(&e).ts_millis
    };
    assert_eq!(stored(1_234_567_890), 1_234);
    assert_eq!(stored(-5), 0);
    assert_eq!(stored(i128::MAX), u64::MAX);
}

#[test]
fn persist_snapshot_writes_a_file_that_decrypts_back_to_the_same_entries() {
    let key = [3u8; 32];
    let Ok(raw) = log_persist::persist_snapshot(Some(to_json(&[sample()])), &key) else {
        panic!("persist_snapshot must succeed");
    };
    assert!(
        !raw.windows(b"persisted-example.test".len())
            .any(|w| w == b"persisted-example.test"),
        "the domain must not be readable in the file"
    );
    let plaintext = match open(&key, FileKind::QueryLog, &raw) {
        Ok(bytes) => bytes,
        Err(err) => panic!("open must succeed with the same key: {}", err.message()),
    };
    let back = from_json(&plaintext);
    assert_eq!(back.len(), 1);
    assert_eq!(back[0].domain, "persisted-example.test");
    assert_eq!(back[0].resolved_ip_country.as_deref(), Some("DE"));
}

#[test]
fn a_log_that_has_no_stored_form_is_not_written() {
    assert!(matches!(
        log_persist::persist_snapshot(None, &[3u8; 32]),
        Err(PersistError::Serialize)
    ));
}

fn path() -> FilePath {
    file_in("/data", log_persist::FILE_NAME)
}

/// Reads a log's file back as far as the library lets it.
fn seed_from_file(raw: Option<Vec<u8>>, key: [u8; 32]) -> (QueryLogInit, LoadNote) {
    let mut event = log_persist::LoadEvent::Read {
        path: path(),
        key,
        raw,
    };
    loop {
        event = match load_persisted_query_log(event) {
            log_persist::LoadStep::Parse {
                path,
                key,
                plaintext,
            } => log_persist::LoadEvent::Parsed {
                path,
                key,
                file: parse(&plaintext),
                now: NOW,
            },
            log_persist::LoadStep::Done {
                init,
                move_aside,
                note,
            } => {
                assert_eq!(move_aside, matches!(note, LoadNote::NotRestored(_)));
                return (init, note);
            }
            _ => panic!("the key and the file are known already"),
        };
    }
}

#[test]
fn seed_from_file_round_trips_a_persisted_snapshot_into_a_fresh_log() {
    let key = [5u8; 32];
    let Ok(raw) = log_persist::persist_snapshot(Some(to_json(&[sample(), sample()])), &key) else {
        panic!("persist_snapshot");
    };
    let (init, note) = seed_from_file(Some(raw), key);
    assert_eq!(note, LoadNote::Restored(2));
    assert_eq!(init.log.snapshot(NOW).len(), 2);
    assert!(init.flusher.is_some());
}

#[test]
fn seed_from_file_errors_on_a_corrupt_file_without_touching_the_log() {
    let key = [5u8; 32];
    let Ok(mut raw) = log_persist::persist_snapshot(Some(to_json(&[sample()])), &key) else {
        panic!("persist_snapshot");
    };
    let last = raw.len() - 1;
    raw[last] ^= 0x01;
    let (init, note) = seed_from_file(Some(raw), key);
    assert_eq!(
        note,
        LoadNote::NotRestored(LoadError::Decrypt(EncryptedFileError::Decrypt))
    );
    assert!(
        init.log.snapshot(NOW).is_empty(),
        "a failed restore must leave the log empty"
    );
}

#[test]
fn a_file_that_cannot_be_read_or_parsed_is_told_apart() {
    let key = [5u8; 32];
    assert_eq!(
        seed_from_file(None, key).1,
        LoadNote::NotRestored(LoadError::Read)
    );
    let Ok(raw) = log_persist::persist_snapshot(Some(b"not json at all".to_vec()), &key) else {
        panic!("persist_snapshot");
    };
    assert_eq!(
        seed_from_file(Some(raw), key).1,
        LoadNote::NotRestored(LoadError::Parse)
    );
}

fn started(step: log_persist::LoadStep) -> (QueryLogInit, bool, LoadNote) {
    match step {
        log_persist::LoadStep::Done {
            init,
            move_aside,
            note,
        } => (init, move_aside, note),
        _ => panic!("the start must be over"),
    }
}

#[test]
fn load_persisted_query_log_is_a_no_op_when_disabled() {
    let (init, _, note) = started(load_persisted_query_log(log_persist::LoadEvent::Start {
        app_data: None,
        persist_query_log: false,
    }));
    assert!(init.flusher.is_none());
    assert!(init.log.snapshot(NOW).is_empty());
    assert_eq!(note, LoadNote::Off);
}

#[test]
fn load_persisted_query_log_disables_itself_with_no_app_data_dir() {
    let (init, _, note) = started(load_persisted_query_log(log_persist::LoadEvent::Start {
        app_data: None,
        persist_query_log: true,
    }));
    assert!(
        init.flusher.is_none(),
        "persistence needs an app-data directory"
    );
    assert_eq!(note, LoadNote::NoDirectory);
}

#[test]
fn a_log_whose_key_is_gone_is_moved_aside() {
    let step = load_persisted_query_log(log_persist::LoadEvent::Start {
        app_data: Some("/data".to_string()),
        persist_query_log: true,
    });
    let log_persist::LoadStep::ObtainKey(file) = step else {
        panic!("the key is asked for first");
    };
    assert_eq!(file.name, "query-log.enc");
    let key = |orphaned_ciphertext| {
        Ok(PersistenceKey {
            key: [1u8; 32],
            orphaned_ciphertext,
        })
    };
    let (init, move_aside, note) =
        started(load_persisted_query_log(log_persist::LoadEvent::Key {
            path: path(),
            ciphertext_present: true,
            key: key(true),
        }));
    assert!(move_aside);
    assert_eq!(note, LoadNote::Orphaned);
    assert!(init.flusher.is_some());
    let (_, move_aside, note) = started(load_persisted_query_log(log_persist::LoadEvent::Key {
        path: path(),
        ciphertext_present: false,
        key: key(false),
    }));
    assert!(!move_aside);
    assert_eq!(note, LoadNote::Fresh);
    let (init, _, note) = started(load_persisted_query_log(log_persist::LoadEvent::Key {
        path: path(),
        ciphertext_present: true,
        key: Err(KeyStoreError::Backend),
    }));
    assert!(init.flusher.is_none());
    assert_eq!(note, LoadNote::NoKey(KeyStoreError::Backend));
    assert!(matches!(
        load_persisted_query_log(log_persist::LoadEvent::Key {
            path: path(),
            ciphertext_present: true,
            key: key(false),
        }),
        log_persist::LoadStep::ReadFile { .. }
    ));
    assert_eq!(
        orphan_path(&path(), 1_700_000_000).name,
        "query-log.enc.orphaned-1700000000"
    );
}

#[test]
fn the_file_is_rewritten_once_more_before_the_task_ends() {
    assert_eq!(
        run_query_log_persister(PersisterEvent::Tick),
        (true, false)
    );
    let shutdown = |sender_gone, stopping| {
        run_query_log_persister(PersisterEvent::Shutdown {
            sender_gone,
            stopping,
        })
    };
    assert_eq!(shutdown(false, true), (true, true));
    assert_eq!(shutdown(true, false), (true, true));
    assert_eq!(shutdown(false, false), (false, false));
}

#[test]
fn a_log_keeps_the_newest_entries_of_the_last_day() {
    let mut log = QueryLog::default();
    for i in 0..1003u64 {
        let mut e = sample();
        e.latency_ms = i;
        log.push(e);
    }
    let kept = log.snapshot(NOW);
    assert_eq!(kept.len(), 1000);
    assert_eq!(kept[0].latency_ms, 3);
    let day: i128 = 86_400_000_000_000;
    assert_eq!(log.snapshot(NOW + day).len(), 1000);
    assert!(log.snapshot(NOW + day + 1).is_empty());
    log.restore(kept, NOW + day + 1);
    assert!(log.snapshot(NOW).is_empty());
}

fn cfg(enabled: bool) -> PersonalZoneConfig {
    PersonalZoneConfig {
        enabled,
        frequency_window_days: 30,
        frequency_top_n: 200,
        regularity_window_days: 14,
        regularity_min_days: 5,
    }
}

fn zone_json(zone: &PersistedPersonalZone) -> Vec<u8> {
    let domains = zone
        .domains
        .iter()
        .map(|(name, counts)| {
            object(vec![
                ("name", Value::from(name.clone())),
                ("counts", Value::from(counts.clone())),
            ])
        })
        .collect::<Vec<_>>();
    object(vec![
        ("today", Value::from(zone.today)),
        ("domains", Value::from(domains)),
    ])
    .to_string()
    .into_bytes()
}

fn zone_from(json: &[u8]) -> Option<PersistedPersonalZone> {
    let value: Value = serde_json::from_slice(json).ok()?;
    let mut domains = Vec::new();
    for domain in value.get("domains")?.as_array()? {
        let mut counts = Vec::new();
        for count in domain.get("counts")?.as_array()? {
            counts.push(u16::try_from(count.as_u64()?).ok()?);
        }
        domains.push((string(domain, "name")?, counts));
    }
    Some(PersistedPersonalZone {
        today: u32::try_from(value.get("today")?.as_u64()?).ok()?,
        domains,
    })
}

fn today() -> DayIndex {
    DayIndex::from_unix_seconds(NOW_SECONDS)
}

#[test]
fn persist_snapshot_writes_a_file_that_decrypts_back_to_the_same_stats() {
    let key = [5u8; 32];
    let mut stats = PersonalZoneStats::new(7, today());
    stats.record_visit("learned.example", today());
    let json = zone_json(&stats.to_persisted());
    let Ok(raw) = personal_zone_persist::persist_snapshot(Some(json), &key) else {
        panic!("persist_snapshot must succeed");
    };
    assert!(
        !raw.windows(b"learned.example".len())
            .any(|w| w == b"learned.example"),
        "the domain must not be readable in the file"
    );
    assert!(
        open(&key, FileKind::PersonalZone, &raw).is_ok(),
        "open must succeed with the same key"
    );
}

/// Reads a zone's file back as far as the library lets it.
fn zone_started(event: personal_zone_persist::LoadEvent, seconds: u64, on: bool) -> PersonalZoneInit {
    let mut event = event;
    loop {
        event = match load_persisted_personal_zone(&cfg(on), seconds, event) {
            personal_zone_persist::LoadStep::Parse {
                path,
                key,
                plaintext,
            } => personal_zone_persist::LoadEvent::Parsed {
                path,
                key,
                persisted: zone_from(&plaintext),
            },
            personal_zone_persist::LoadStep::ObtainKey(path) => {
                personal_zone_persist::LoadEvent::Key {
                    path,
                    ciphertext_present: false,
                    key: Ok(PersistenceKey {
                        key: [7u8; 32],
                        orphaned_ciphertext: false,
                    }),
                }
            }
            personal_zone_persist::LoadStep::ReadFile { .. } => {
                panic!("there is no file to read")
            }
            personal_zone_persist::LoadStep::Done { init, .. } => return init,
        };
    }
}

#[test]
fn seed_from_file_round_trips_a_persisted_snapshot() {
    let key = [7u8; 32];
    let mut stats = PersonalZoneStats::new(7, today());
    stats.record_visit("round-trip.example", today());
    let json = zone_json(&stats.to_persisted());
    let Ok(raw) = personal_zone_persist::persist_snapshot(Some(json), &key) else {
        panic!("persist_snapshot");
    };
    let plaintext = match open(&key, FileKind::PersonalZone, &raw) {
        Ok(bytes) => bytes,
        Err(err) => panic!("open must succeed: {}", err.message()),
    };
    let Some(persisted) = zone_from(&plaintext) else {
        panic!("the stored form must parse");
    };
    let restored = PersonalZoneStats::from_persisted(persisted, today(), 7);
    assert_eq!(restored.tracked_domain_count(), 1);
}

#[test]
fn a_restart_preserves_a_learned_domain_across_the_day_boundary() {
    let init = zone_started(
        personal_zone_persist::LoadEvent::Start {
            app_data: Some("/data".to_string()),
        },
        NOW_SECONDS,
        true,
    );
    let Some(flusher) = init.flusher else {
        panic!("enabled with an app-data dir must yield a flusher");
    };
    assert_eq!(flusher.path.name, "personal-zone.enc");
    let mut stats = init.stats;
    stats.record_visit("restart-me.example", today());
    let json = zone_json(&stats.to_persisted());
    let Ok(raw) = personal_zone_persist::persist_snapshot(Some(json), &flusher.key) else {
        panic!("persist_snapshot");
    };
    // "Restart" a day later.
    let restored = zone_started(
        personal_zone_persist::LoadEvent::Read {
            path: flusher.path,
            key: flusher.key,
            raw: Some(raw),
        },
        NOW_SECONDS + 25 * 3600,
        true,
    );
    assert_eq!(
        restored.zone,
        vec!["restart-me.example".to_string()],
        "a domain visited before a restart must still qualify after it"
    );
}

#[test]
fn load_persisted_personal_zone_skips_disk_entirely_when_disabled() {
    let init = zone_started(
        personal_zone_persist::LoadEvent::Start {
            app_data: Some("/data".to_string()),
        },
        NOW_SECONDS,
        false,
    );
    assert!(init.zone.is_empty());
    assert!(init.flusher.is_none());
}

#[test]
fn load_persisted_personal_zone_with_no_app_data_dir_does_not_panic() {
    let init = zone_started(
        personal_zone_persist::LoadEvent::Start { app_data: None },
        NOW_SECONDS,
        true,
    );
    assert!(init.zone.is_empty());
    assert!(init.flusher.is_none());
}

#[test]
fn a_turn_of_the_zone_moves_to_today_and_writes() {
    let mut stats = PersonalZoneStats::new(30, today());
    stats.record_visit("seen.example", today());
    assert!(tick(&mut stats, &cfg(false), NOW_SECONDS + 86_400).is_none());
    assert_eq!(stats.today(), today());
    let Some((zone, persisted)) = tick(&mut stats, &cfg(true), NOW_SECONDS + 86_400) else {
        panic!("an enabled zone is kept");
    };
    assert_eq!(stats.today(), DayIndex(today().0 + 1));
    assert_eq!(zone, zone_from_stats(&stats, &cfg(true)));
    assert_eq!(zone, vec!["seen.example".to_string()]);
    assert_eq!(persisted.today, today().0 + 1);
}
