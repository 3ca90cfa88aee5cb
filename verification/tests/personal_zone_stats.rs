use dnsqb_service::config::PersonalZoneConfig;
use dnsqb_service::personal_zone_stats::{
    window_len_from_config, DayIndex, PersistedPersonalZone, PersonalZoneStats,
    MAX_TRACKED_DOMAINS,
};

fn day(n: u32) -> DayIndex {
    DayIndex(n)
}

fn cfg(freq_window: u32, top_n: u32, reg_window: u32, reg_min: u32) -> PersonalZoneConfig {
    PersonalZoneConfig {
        enabled: true,
        frequency_window_days: freq_window,
        frequency_top_n: top_n,
        regularity_window_days: reg_window,
        regularity_min_days: reg_min,
    }
}

fn has(names: &[String], name: &str) -> bool {
    names.iter().any(|n| n == name)
}

#[test]
fn a_domain_visited_daily_qualifies_by_regularity() {
    let mut stats = PersonalZoneStats::new(14, day(0));
    for d in 0..10 {
        stats.record_visit("daily.example", day(d));
    }
    let qualifying = stats.derive_qualifying_domains(&cfg(30, 1, 14, 5));
    assert!(has(&qualifying, "daily.example"));
}

#[test]
fn a_domain_with_one_big_session_qualifies_by_frequency_not_regularity() {
    let mut stats = PersonalZoneStats::new(30, day(0));
    for _ in 0..50 {
        stats.record_visit("one-session.example", day(0));
    }
    let qualifying = stats.derive_qualifying_domains(&cfg(30, 5, 14, 3));
    assert!(has(&qualifying, "one-session.example"));
}

#[test]
fn the_two_criteria_are_a_union_not_an_intersection() {
    let mut stats = PersonalZoneStats::new(30, day(0));
    for _ in 0..100 {
        stats.record_visit("frequent-only.example", day(0));
    }
    for d in 0..5 {
        stats.record_visit("regular-only.example", day(d));
    }
    stats.record_visit("neither.example", day(0));

    let qualifying = stats.derive_qualifying_domains(&cfg(30, 1, 14, 5));
    assert!(has(&qualifying, "frequent-only.example"));
    assert!(has(&qualifying, "regular-only.example"));
    assert!(!has(&qualifying, "neither.example"));
}

#[test]
fn the_tracked_domain_count_never_exceeds_the_hard_cap() {
    let mut stats = PersonalZoneStats::new(7, day(0));
    for i in 0..(MAX_TRACKED_DOMAINS + 50) {
        stats.record_visit(&format!("host-{i}.example"), day(0));
    }
    assert!(stats.tracked_domain_count() <= MAX_TRACKED_DOMAINS);
}

#[test]
fn a_daily_counter_saturates_instead_of_overflowing() {
    let mut stats = PersonalZoneStats::new(1, day(0));
    for _ in 0..(u32::from(u16::MAX) + 10) {
        stats.record_visit("hot.example", day(0));
    }
    let qualifying = stats.derive_qualifying_domains(&cfg(1, 1, 1, 1));
    assert!(has(&qualifying, "hot.example"));
    assert_eq!(
        stats.to_persisted().domains,
        vec![("hot.example".to_string(), vec![u16::MAX])]
    );
}

#[test]
fn rotating_forward_by_more_than_the_window_clears_everything() {
    let mut stats = PersonalZoneStats::new(7, day(0));
    stats.record_visit("stale.example", day(0));
    stats.rotate_day(day(1000));
    assert_eq!(stats.tracked_domain_count(), 0);
}

#[test]
fn rotating_backward_is_a_no_op() {
    let mut stats = PersonalZoneStats::new(7, day(10));
    stats.record_visit("present.example", day(10));
    stats.rotate_day(day(3));
    assert_eq!(stats.today(), day(10), "backward jump must not move today");
    let qualifying = stats.derive_qualifying_domains(&cfg(7, 10, 7, 1));
    assert!(
        has(&qualifying, "present.example"),
        "backward jump must not lose data"
    );
}

#[test]
fn a_persisted_snapshot_survives_a_window_length_change() {
    let mut stats = PersonalZoneStats::new(7, day(0));
    stats.record_visit("grown.example", day(0));
    let persisted = stats.to_persisted();
    let restored = PersonalZoneStats::from_persisted(persisted, day(0), 30);
    let qualifying = restored.derive_qualifying_domains(&cfg(30, 5, 30, 1));
    assert!(has(&qualifying, "grown.example"));
}

#[test]
fn a_restart_after_a_shrunk_window_and_a_partial_gap_keeps_the_right_offset() {
    let mut stats = PersonalZoneStats::new(30, day(0));
    for d in 0..30 {
        stats.record_visit("everyday.example", day(d));
    }
    let persisted = stats.to_persisted();
    let restored = PersonalZoneStats::from_persisted(persisted, day(34), 7);
    let qualifying = restored.derive_qualifying_domains(&cfg(7, 1, 7, 1));
    assert!(
        has(&qualifying, "everyday.example"),
        "a visit still inside the shrunk window must survive the restart"
    );
}

#[test]
fn a_restart_after_a_shrunk_window_and_a_gap_longer_than_it_drops_stale_data() {
    let mut stats = PersonalZoneStats::new(30, day(0));
    stats.record_visit("stale.example", day(0));
    let persisted = stats.to_persisted();
    let restored = PersonalZoneStats::from_persisted(persisted, day(40), 7);
    let qualifying = restored.derive_qualifying_domains(&cfg(7, 1, 7, 1));
    assert!(
        !has(&qualifying, "stale.example"),
        "a visit older than the shrunk window must not survive the restart"
    );
}

#[test]
fn an_empty_store_derives_an_empty_set() {
    let stats = PersonalZoneStats::new(30, day(0));
    assert!(stats
        .derive_qualifying_domains(&cfg(30, 200, 14, 5))
        .is_empty());
}

#[test]
fn a_snapshot_lists_hosts_by_name_with_their_counts() {
    let mut stats = PersonalZoneStats::new(3, day(5));
    stats.record_visit("b.example", day(5));
    stats.record_visit("a.example", day(6));
    stats.record_visit("b.example", day(6));
    stats.record_visit("b.example", day(6));
    let persisted = stats.to_persisted();
    assert_eq!(persisted.today, 6);
    assert_eq!(
        persisted.domains,
        vec![
            ("a.example".to_string(), vec![0, 0, 1]),
            ("b.example".to_string(), vec![0, 1, 2]),
        ]
    );
}

#[test]
fn moving_the_rings_in_two_steps_is_moving_them_at_once() {
    let mut one = PersonalZoneStats::new(5, day(0));
    let mut two = PersonalZoneStats::new(5, day(0));
    for stats in [&mut one, &mut two] {
        stats.record_visit("a.example", day(0));
        stats.record_visit("b.example", day(2));
    }
    one.rotate_day(day(6));
    two.rotate_day(day(4));
    two.rotate_day(day(6));
    assert_eq!(one.to_persisted().domains, two.to_persisted().domains);
    assert_eq!(one.tracked_domain_count(), 1);
}

#[test]
fn the_ranking_has_as_many_places_as_are_asked_for() {
    let mut stats = PersonalZoneStats::new(30, day(0));
    for (name, visits) in [("a", 5), ("b", 4), ("c", 3), ("d", 2), ("e", 1)] {
        for _ in 0..visits {
            stats.record_visit(&format!("{name}.example"), day(0));
        }
    }
    for places in 0..6 {
        let qualifying = stats.derive_qualifying_domains(&cfg(30, places, 14, 5));
        assert_eq!(qualifying.len(), std::cmp::min(places, 5) as usize);
    }
    let qualifying = stats.derive_qualifying_domains(&cfg(30, 2, 14, 5));
    assert!(has(&qualifying, "a.example"));
    assert!(has(&qualifying, "b.example"));
}

#[test]
fn the_least_recently_visited_host_makes_room() {
    let mut stats = PersonalZoneStats::new(7, day(0));
    stats.record_visit("oldest.example", day(0));
    for i in 0..MAX_TRACKED_DOMAINS {
        stats.record_visit(&format!("host-{i}.example"), day(1));
    }
    let persisted = stats.to_persisted();
    assert_eq!(persisted.domains.len(), MAX_TRACKED_DOMAINS);
    assert!(!persisted.domains.iter().any(|d| d.0 == "oldest.example"));
}

#[test]
fn a_snapshot_of_too_many_hosts_is_cut_to_the_cap() {
    let mut domains = Vec::new();
    for i in 0..(MAX_TRACKED_DOMAINS + 3) {
        domains.push((format!("host-{i}.example"), vec![1]));
    }
    let restored =
        PersonalZoneStats::from_persisted(PersistedPersonalZone { today: 0, domains }, day(0), 1);
    assert_eq!(restored.tracked_domain_count(), MAX_TRACKED_DOMAINS);
}

#[test]
fn the_ring_is_long_enough_for_both_criteria() {
    assert_eq!(window_len_from_config(&cfg(30, 1, 14, 5)), 30);
    assert_eq!(window_len_from_config(&cfg(7, 1, 14, 5)), 14);
    assert_eq!(window_len_from_config(&cfg(0, 1, 0, 5)), 1);
}

#[test]
fn a_day_is_counted_from_the_epoch() {
    assert_eq!(DayIndex::from_unix_seconds(0), day(0));
    assert_eq!(DayIndex::from_unix_seconds(86_399), day(0));
    assert_eq!(DayIndex::from_unix_seconds(1_787_961_600), day(20_694));
    assert_eq!(DayIndex::from_unix_seconds(u64::MAX), day(u32::MAX));
}
