//! The counters behind the personal zone: which hosts the user visits often or
//! regularly.
//!
//! Every tracked host has a ring of visit counts, one for each day of the
//! window, oldest first. A host belongs to the zone by frequency or by
//! regularity.
use std::collections::VecDeque;
use vstd::prelude::*;
use vstd::std_specs::vecdeque::*;
use crate::config::PersonalZoneConfig;
use crate::text;

verus! {

/// How many hosts are tracked at most.
pub const MAX_TRACKED_DOMAINS: usize = 2000;

/// Seconds in a day.
pub const DAY_SECONDS: u64 = 86_400;

/// A day, counted from the Unix epoch.
#[derive(Debug, Clone, Copy, PartialEq, Eq, Structural)]
pub struct DayIndex(pub u32);

/// The number of the day that a number of seconds after the Unix epoch falls
/// on; the last one there is, where it falls after that.
pub open spec fn day_of(seconds: u64) -> u32 {
    if seconds / DAY_SECONDS <= u32::MAX {
        (seconds / DAY_SECONDS) as u32
    } else {
        u32::MAX
    }
}

impl DayIndex {
    /// The day that a number of seconds after the Unix epoch falls on.
    pub fn from_unix_seconds(seconds: u64) -> (day: Self)
        ensures
            day.0 == day_of(seconds),
    {
        let days: u64 = seconds / DAY_SECONDS;
        if days <= u32::MAX as u64 {
            DayIndex(days as u32)
        } else {
            DayIndex(u32::MAX)
        }
    }
}

/// What is known of one tracked host: its visit counts, oldest day first, and
/// the day of its last visit.
#[verifier::ext_equal]
pub struct Track {
    /// Visits per day, oldest first.
    pub counts: Seq<u16>,
    /// The day of the last visit.
    pub last_visited: nat,
}

/// A tracked host.
#[derive(Debug)]
pub struct TrackedDomain {
    name: String,
    counts: VecDeque<u16>,
    last_visited: DayIndex,
}

impl View for TrackedDomain {
    type V = Track;

    closed spec fn view(&self) -> Track {
        Track { counts: self.counts@, last_visited: self.last_visited.0 as nat }
    }
}

/// The tracked hosts, the day that their rings end on, and how many days a
/// ring has.
#[derive(Debug)]
pub struct PersonalZoneStats {
    today: DayIndex,
    window_len: usize,
    domains: Vec<TrackedDomain>,
}

/// What is kept of [`PersonalZoneStats`] on disk.
#[derive(Debug)]
pub struct PersistedPersonalZone {
    /// The day that the rings end on.
    pub today: u32,
    /// The hosts with their counts, oldest first.
    pub domains: Vec<(String, Vec<u16>)>,
}

/// Days without a visit: `n` counts of zero.
pub open spec fn quiet(n: nat) -> Seq<u16> {
    Seq::new(n, |i: int| 0u16)
}

/// A ring moved forward by `days`: the oldest counts fall off and as many days
/// without visits follow.
pub open spec fn shifted(counts: Seq<u16>, days: nat) -> Seq<u16> {
    counts.skip(days as int) + quiet(days)
}

/// Whether a ring holds any visit.
pub open spec fn alive(counts: Seq<u16>) -> bool {
    exists|i: int| 0 <= i < counts.len() && #[trigger] counts[i] != 0
}

/// By how many places rings of `window` days move from day `from` to day `to`.
pub open spec fn shift_between(from: nat, to: nat, window: nat) -> nat {
    if to <= from {
        0
    } else if to - from <= window {
        (to - from) as nat
    } else {
        window
    }
}

/// The hosts of `m` once every ring has moved forward by `days`. Hosts without
/// a visit left are gone.
pub open spec fn rotated(m: Map<Seq<char>, Track>, days: nat) -> Map<Seq<char>, Track> {
    Map::new(
        |name: Seq<char>| m.contains_key(name) && alive(shifted(m[name].counts, days)),
        |name: Seq<char>|
            Track {
                counts: shifted(m[name].counts, days),
                last_visited: m[name].last_visited,
            },
    )
}

/// The hosts of `m`, whose rings end on day `from`, on day `to`.
pub open spec fn rolled(m: Map<Seq<char>, Track>, from: nat, to: nat, window: nat) -> Map<
    Seq<char>,
    Track,
> {
    if to <= from {
        m
    } else {
        rotated(m, shift_between(from, to, window))
    }
}

/// A ring cut or filled up to `window` days: the oldest counts fall off, or
/// days without visits are put before them.
pub open spec fn resized(counts: Seq<u16>, window: nat) -> Seq<u16> {
    if counts.len() > window {
        counts.skip(counts.len() - window)
    } else {
        quiet((window - counts.len()) as nat) + counts
    }
}

/// How many days before its end a ring has its last visit.
pub open spec fn days_since_visit(counts: Seq<u16>) -> Option<nat>
    decreases counts.len(),
{
    if counts.len() == 0 {
        None
    } else if counts.last() != 0 {
        Some(0)
    } else {
        match days_since_visit(counts.drop_last()) {
            Some(days) => Some(days + 1),
            None => None,
        }
    }
}

/// The day of the last visit in a ring that ends on `today`; `today` where
/// there is no visit in it.
pub open spec fn last_visit(counts: Seq<u16>, today: nat) -> nat {
    match days_since_visit(counts) {
        Some(days) => if days <= today {
            (today - days) as nat
        } else {
            0
        },
        None => today,
    }
}

/// All visits of a ring.
pub open spec fn total(counts: Seq<u16>) -> nat
    decreases counts.len(),
{
    if counts.len() == 0 {
        0
    } else {
        counts[0] as nat + total(counts.skip(1))
    }
}

/// The days of a ring on which there was a visit.
pub open spec fn visited_days(counts: Seq<u16>) -> nat
    decreases counts.len(),
{
    if counts.len() == 0 {
        0
    } else {
        (if counts[0] != 0 {
            1nat
        } else {
            0nat
        }) + visited_days(counts.skip(1))
    }
}

/// The last `n` days of a ring.
pub open spec fn last_days(counts: Seq<u16>, n: nat) -> Seq<u16> {
    if n < counts.len() {
        counts.skip(counts.len() - n)
    } else {
        counts
    }
}

/// The visits of the last `n` days, as far as they can be counted.
pub open spec fn visits_last(counts: Seq<u16>, n: nat) -> nat {
    if total(last_days(counts, n)) <= u32::MAX {
        total(last_days(counts, n))
    } else {
        u32::MAX as nat
    }
}

/// The ring of a host that was first visited on the last of `window` days.
pub open spec fn first_visit(window: nat) -> Seq<u16> {
    quiet((window - 1) as nat).push(1)
}

/// A ring with one visit more on its last day, as far as it can be counted.
pub open spec fn one_more(counts: Seq<u16>) -> Seq<u16> {
    if counts.last() < u16::MAX {
        counts.update(counts.len() - 1, (counts.last() + 1) as u16)
    } else {
        counts
    }
}

/// Whether `name` is a host of `m` such that none was visited longer ago.
pub open spec fn least_recent(m: Map<Seq<char>, Track>, name: Seq<char>) -> bool {
    m.contains_key(name) && forall|other: Seq<char>| #[trigger]
        m.contains_key(other) ==> m[name].last_visited <= m[other].last_visited
}

/// Whether `after` can be what a visit of `host` on `day` makes of `m`, the
/// hosts on that day. A host that is not in `m` takes the place of one visited
/// least recently where `m` is full.
pub open spec fn visited(
    m: Map<Seq<char>, Track>,
    host: Seq<char>,
    day: nat,
    window: nat,
    after: Map<Seq<char>, Track>,
) -> bool {
    let fresh = Track { counts: first_visit(window), last_visited: day };
    if m.contains_key(host) {
        after == m.insert(host, Track { counts: one_more(m[host].counts), last_visited: day })
    } else if m.dom().len() >= MAX_TRACKED_DOMAINS {
        exists|gone: Seq<char>| #[trigger]
            least_recent(m, gone) && after == m.remove(gone).insert(host, fresh)
    } else {
        after == m.insert(host, fresh)
    }
}

/// Whether `kept` is what the cap leaves of `m`: all of it if it fits, else as
/// many hosts as fit, none of which was visited before one that is gone.
pub open spec fn capped(m: Map<Seq<char>, Track>, kept: Map<Seq<char>, Track>) -> bool {
    &&& kept.submap_of(m)
    &&& kept.dom().finite()
    &&& kept.dom().len() == if m.dom().len() <= MAX_TRACKED_DOMAINS {
        m.dom().len()
    } else {
        MAX_TRACKED_DOMAINS as nat
    }
    &&& forall|gone: Seq<char>, stays: Seq<char>|
        m.contains_key(gone) && !kept.contains_key(gone) && kept.contains_key(stays)
            ==> #[trigger] m[gone].last_visited <= #[trigger] m[stays].last_visited
}

/// The texts and counts of a stored list of hosts.
pub open spec fn stored(domains: Seq<(String, Vec<u16>)>) -> Seq<(Seq<char>, Seq<u16>)> {
    domains.map_values(|d: (String, Vec<u16>)| (d.0@, d.1@))
}

/// The hosts that a stored list stands for on the day it was written, in rings
/// of `window` days. Where a host occurs twice, the later entry counts.
pub open spec fn restored(
    domains: Seq<(Seq<char>, Seq<u16>)>,
    today: nat,
    window: nat,
) -> Map<Seq<char>, Track>
    decreases domains.len(),
{
    if domains.len() == 0 {
        Map::empty()
    } else {
        let counts = resized(domains.last().1, window);
        restored(domains.drop_last(), today, window).insert(
            domains.last().0,
            Track { counts, last_visited: last_visit(counts, today) },
        )
    }
}

/// Whether a stored list holds the hosts of `m` with their counts, each once
/// and in the order of their names.
pub open spec fn stores(domains: Seq<(Seq<char>, Seq<u16>)>, m: Map<Seq<char>, Track>) -> bool {
    &&& forall|i: int, j: int|
        0 <= i < j < domains.len() ==> text::text_before(
            (#[trigger] domains[i]).0,
            (#[trigger] domains[j]).0,
        )
    &&& forall|i: int|
        0 <= i < domains.len() ==> m.contains_key((#[trigger] domains[i]).0)
            && m[domains[i].0].counts == domains[i].1
    &&& forall|name: Seq<char>| #[trigger]
        m.contains_key(name) ==> exists|i: int|
            0 <= i < domains.len() && (#[trigger] domains[i]).0 == name
}

/// The shorter of a configured window and the rings' own.
pub open spec fn within(days: u32, window: nat) -> nat {
    if days <= window {
        days as nat
    } else {
        window
    }
}

/// Whether `a` is ahead of `b` among the hosts of `m`: more visits in the last
/// `n` days, or as many and an earlier name.
pub open spec fn ahead(m: Map<Seq<char>, Track>, n: nat, a: Seq<char>, b: Seq<char>) -> bool {
    precedes(visits_last(m[a].counts, n), a, visits_last(m[b].counts, n), b)
}

/// Whether `visits` visits under the name `name` come before `other_visits`
/// under the name `other`.
pub open spec fn precedes(
    visits: nat,
    name: Seq<char>,
    other_visits: nat,
    other: Seq<char>,
) -> bool {
    visits > other_visits || (visits == other_visits && text::text_before(name, other))
}

/// How many hosts of `m` are ahead of `name`.
pub open spec fn frequency_rank(m: Map<Seq<char>, Track>, n: nat, name: Seq<char>) -> nat {
    m.dom().filter(|other: Seq<char>| ahead(m, n, other, name)).len()
}

/// Whether a host has one of the first places by visits.
pub open spec fn frequent(
    m: Map<Seq<char>, Track>,
    cfg: PersonalZoneConfig,
    window: nat,
    name: Seq<char>,
) -> bool {
    let n = within(cfg.frequency_window_days, window);
    m.contains_key(name) && visits_last(m[name].counts, n) > 0 && frequency_rank(m, n, name)
        < cfg.frequency_top_n
}

/// Whether a host was visited on enough days. A number of days that does not
/// fit in 32 bits counts as none.
pub open spec fn regular(
    m: Map<Seq<char>, Track>,
    cfg: PersonalZoneConfig,
    window: nat,
    name: Seq<char>,
) -> bool {
    let days = visited_days(
        last_days(m[name].counts, within(cfg.regularity_window_days, window)),
    );
    m.contains_key(name) && (if days <= u32::MAX {
        days
    } else {
        0
    }) >= cfg.regularity_min_days
}

/// Whether a host belongs to the zone: by frequency or by regularity.
pub open spec fn qualifies(
    m: Map<Seq<char>, Track>,
    cfg: PersonalZoneConfig,
    window: nat,
    name: Seq<char>,
) -> bool {
    frequent(m, cfg, window, name) || regular(m, cfg, window, name)
}

spec fn named(s: Seq<TrackedDomain>) -> Map<Seq<char>, Track> {
    Map::new(
        |name: Seq<char>| exists|i: int| 0 <= i < s.len() && #[trigger] s[i].name@ == name,
        |name: Seq<char>| s[choose|i: int| 0 <= i < s.len() && #[trigger] s[i].name@ == name]@,
    )
}

spec fn unique(s: Seq<TrackedDomain>) -> bool {
    forall|i: int, j: int|
        0 <= i < j < s.len() ==> #[trigger] s[i].name@ != #[trigger] s[j].name@
}

proof fn lemma_named_at(s: Seq<TrackedDomain>, i: int)
    requires
        unique(s),
        0 <= i < s.len(),
    ensures
        named(s).contains_key(s[i].name@),
        named(s)[s[i].name@] == s[i]@,
{
    let name = s[i].name@;
    let j = choose|j: int| 0 <= j < s.len() && #[trigger] s[j].name@ == name;
    assert(0 <= j < s.len() && s[j].name@ == name);
    if j < i {
        assert(s[j].name@ != s[i].name@);
    } else if i < j {
        assert(s[i].name@ != s[j].name@);
    }
}

proof fn lemma_named_push(s: Seq<TrackedDomain>, d: TrackedDomain)
    requires
        unique(s),
        !named(s).contains_key(d.name@),
    ensures
        unique(s.push(d)),
        named(s.push(d)) == named(s).insert(d.name@, d@),
{
    let t = s.push(d);
    assert forall|i: int, j: int| 0 <= i < j < t.len() implies #[trigger] t[i].name@
        != #[trigger] t[j].name@ by {
        assert(t[i] == s[i]);
        if j < s.len() {
            assert(t[j] == s[j]);
        } else if s[i].name@ == d.name@ {
            assert(named(s).contains_key(d.name@));
        }
    }
    assert forall|name: Seq<char>| #[trigger]
        named(t).contains_key(name) <==> named(s).insert(d.name@, d@).contains_key(name) by {
        if named(t).contains_key(name) {
            let i = choose|i: int| 0 <= i < t.len() && #[trigger] t[i].name@ == name;
            if i < s.len() {
                assert(s[i].name@ == name);
            }
        }
        if named(s).contains_key(name) {
            let i = choose|i: int| 0 <= i < s.len() && #[trigger] s[i].name@ == name;
            assert(t[i].name@ == name);
        }
        if name == d.name@ {
            assert(t[s.len() as int].name@ == name);
        }
    }
    assert forall|name: Seq<char>| named(t).contains_key(name) implies #[trigger] named(t)[name]
        == named(s).insert(d.name@, d@)[name] by {
        let i = choose|i: int| 0 <= i < t.len() && #[trigger] t[i].name@ == name;
        lemma_named_at(t, i);
        if i < s.len() {
            assert(s[i].name@ == name);
            lemma_named_at(s, i);
        }
    }
    assert(named(t) =~= named(s).insert(d.name@, d@));
}

proof fn lemma_named_update(s: Seq<TrackedDomain>, at: int, d: TrackedDomain)
    requires
        unique(s),
        0 <= at < s.len(),
        d.name@ == s[at].name@,
    ensures
        unique(s.update(at, d)),
        named(s.update(at, d)) == named(s).insert(d.name@, d@),
{
    let t = s.update(at, d);
    assert forall|i: int, j: int| 0 <= i < j < t.len() implies #[trigger] t[i].name@
        != #[trigger] t[j].name@ by {
        assert(s[i].name@ != s[j].name@);
    }
    assert forall|name: Seq<char>| #[trigger]
        named(t).contains_key(name) <==> named(s).insert(d.name@, d@).contains_key(name) by {
        if named(t).contains_key(name) {
            let i = choose|i: int| 0 <= i < t.len() && #[trigger] t[i].name@ == name;
            assert(s[i].name@ == name);
        }
        if named(s).contains_key(name) {
            let i = choose|i: int| 0 <= i < s.len() && #[trigger] s[i].name@ == name;
            assert(t[i].name@ == name);
        }
        if name == d.name@ {
            assert(t[at].name@ == name);
        }
    }
    assert forall|name: Seq<char>| named(t).contains_key(name) implies #[trigger] named(t)[name]
        == named(s).insert(d.name@, d@)[name] by {
        let i = choose|i: int| 0 <= i < t.len() && #[trigger] t[i].name@ == name;
        lemma_named_at(t, i);
        lemma_named_at(s, i);
        if i != at {
            if i < at {
                assert(s[i].name@ != s[at].name@);
            } else {
                assert(s[at].name@ != s[i].name@);
            }
        }
    }
    assert(named(t) =~= named(s).insert(d.name@, d@));
}

proof fn lemma_named_remove(s: Seq<TrackedDomain>, at: int)
    requires
        unique(s),
        0 <= at < s.len(),
    ensures
        unique(s.remove(at)),
        named(s.remove(at)) == named(s).remove(s[at].name@),
{
    let t = s.remove(at);
    assert forall|i: int| 0 <= i < t.len() implies t[i] == s[if i < at { i } else { i + 1 }] by {}
    assert forall|i: int, j: int| 0 <= i < j < t.len() implies #[trigger] t[i].name@
        != #[trigger] t[j].name@ by {
        let a = if i < at { i } else { i + 1 };
        let b = if j < at { j } else { j + 1 };
        assert(s[a].name@ != s[b].name@);
    }
    assert forall|name: Seq<char>| #[trigger]
        named(t).contains_key(name) <==> named(s).remove(s[at].name@).contains_key(name) by {
        if named(t).contains_key(name) {
            let i = choose|i: int| 0 <= i < t.len() && #[trigger] t[i].name@ == name;
            let a = if i < at { i } else { i + 1 };
            assert(s[a].name@ == name);
            if a < at {
                assert(s[a].name@ != s[at].name@);
            } else {
                assert(s[at].name@ != s[a].name@);
            }
        }
        if named(s).contains_key(name) && name != s[at].name@ {
            let i = choose|i: int| 0 <= i < s.len() && #[trigger] s[i].name@ == name;
            assert(t[if i < at { i } else { i - 1 }].name@ == name);
        }
    }
    assert forall|name: Seq<char>| named(t).contains_key(name) implies #[trigger] named(t)[name]
        == named(s).remove(s[at].name@)[name] by {
        let i = choose|i: int| 0 <= i < t.len() && #[trigger] t[i].name@ == name;
        let a = if i < at { i } else { i + 1 };
        lemma_named_at(t, i);
        lemma_named_at(s, a);
    }
    assert(named(t) =~= named(s).remove(s[at].name@));
}

/// As many names as there are entries.
proof fn lemma_named_len(s: Seq<TrackedDomain>)
    requires
        unique(s),
    ensures
        named(s).dom().finite(),
        named(s).dom().len() == s.len(),
    decreases s.len(),
{
    if s.len() == 0 {
        assert(named(s).dom() =~= Set::empty());
    } else {
        let t = s.drop_last();
        assert(s =~= t.push(s.last()));
        assert forall|i: int, j: int| 0 <= i < j < t.len() implies #[trigger] t[i].name@
            != #[trigger] t[j].name@ by {
            assert(s[i].name@ != s[j].name@);
        }
        if named(t).contains_key(s.last().name@) {
            let i = choose|i: int| 0 <= i < t.len() && #[trigger] t[i].name@ == s.last().name@;
            assert(s[i].name@ != s[s.len() - 1].name@);
        }
        lemma_named_len(t);
        lemma_named_push(t, s.last());
        assert(named(s).dom() =~= named(t).dom().insert(s.last().name@));
    }
}

/// The longer of the two windows, at least 1: long enough for both criteria.
pub open spec fn window_of(cfg: PersonalZoneConfig) -> nat {
    if cfg.frequency_window_days >= cfg.regularity_window_days && cfg.frequency_window_days >= 1 {
        cfg.frequency_window_days as nat
    } else if cfg.regularity_window_days >= 1 {
        cfg.regularity_window_days as nat
    } else {
        1
    }
}

/// The length of the rings that both criteria need.
pub fn window_len_from_config(cfg: &PersonalZoneConfig) -> (window: usize)
    ensures
        window == window_of(*cfg),
        window >= 1,
{
    let freq: usize = cfg.frequency_window_days as usize;
    let reg: usize = cfg.regularity_window_days as usize;
    let longer: usize = if freq >= reg {
        freq
    } else {
        reg
    };
    if longer >= 1 {
        longer
    } else {
        1
    }
}

fn resize_counts(v: &Vec<u16>, window_len: usize) -> (d: VecDeque<u16>)
    ensures
        d@ == resized(v@, window_len as nat),
        d@.len() == window_len,
{
    let mut d: VecDeque<u16> = VecDeque::new();
    let mut i: usize = 0;
    while i < v.len()
        invariant
            i <= v.len(),
            d@ == v@.take(i as int),
        decreases v.len() - i,
    {
        d.push_back(v[i]);
        i = i + 1;
        assert(v@.take(i as int) =~= v@.take(i - 1).push(v@[i - 1]));
    }
    assert(v@.take(i as int) =~= v@);
    assert(v@.skip(0) =~= v@);
    let ghost mut cut: int = 0;
    while d.len() > window_len
        invariant
            0 <= cut <= v@.len(),
            d@ == v@.skip(cut),
            cut > 0 ==> d@.len() >= window_len,
        decreases d@.len(),
    {
        d.pop_front();
        proof {
            cut = cut + 1;
            assert(d@ =~= v@.skip(cut));
        }
    }
    if v.len() > window_len {
        assert(d@ == resized(v@, window_len as nat));
    } else {
        assert(d@ =~= v@);
    }
    let ghost kept = d@;
    let ghost mut added: nat = 0;
    assert(quiet(0) + kept =~= kept);
    while d.len() < window_len
        invariant
            d@ == quiet(added) + kept,
            d@.len() <= window_len || added == 0,
        decreases window_len - d@.len(),
    {
        d.push_front(0);
        proof {
            added = added + 1;
            assert(d@ =~= quiet(added) + kept);
        }
    }
    assert(d@ == resized(v@, window_len as nat)) by {
        if v@.len() > window_len {
            assert(d@ =~= kept);
        }
    }
    d
}

fn last_visited_from_counts(counts: &VecDeque<u16>, today: DayIndex) -> (day: DayIndex)
    ensures
        day.0 == last_visit(counts@, today.0 as nat),
{
    let mut i: usize = 0;
    assert(counts@.take(counts@.len() as int) =~= counts@);
    while i < counts.len()
        invariant
            i <= counts@.len(),
            days_since_visit(counts@) == match days_since_visit(counts@.take(counts@.len() - i)) {
                Some(days) => Some((days + i) as nat),
                None => None,
            },
        decreases counts@.len() - i,
    {
        let back: usize = counts.len() - 1 - i;
        assert(counts@.take(counts@.len() - i).drop_last() =~= counts@.take(back as int));
        if counts[back] != 0 {
            assert(days_since_visit(counts@) == Some(i as nat));
            let day: u32 = if i <= today.0 as usize {
                today.0 - i as u32
            } else {
                0
            };
            return DayIndex(day);
        }
        i = i + 1;
    }
    today
}

/// The visits of the last `n` days, as far as they can be counted.
fn sum_last(counts: &VecDeque<u16>, n: usize) -> (sum: u32)
    ensures
        sum == visits_last(counts@, n as nat),
{
    let taken: usize = if n < counts.len() {
        n
    } else {
        counts.len()
    };
    let mut sum: u32 = 0;
    let mut i: usize = 0;
    assert(counts@.skip(counts@.len() as int).len() == 0);
    while i < taken
        invariant
            i <= taken <= counts@.len(),
            sum == if total(counts@.skip(counts@.len() - i)) <= u32::MAX {
                total(counts@.skip(counts@.len() - i))
            } else {
                u32::MAX as nat
            },
        decreases taken - i,
    {
        let at: usize = counts.len() - 1 - i;
        assert(counts@.skip(at as int).skip(1) =~= counts@.skip(at + 1));
        sum = sum.saturating_add(counts[at] as u32);
        i = i + 1;
    }
    assert(counts@.skip(0) =~= counts@);
    sum
}

/// The visited days among the last `n`.
fn count_nonzero_last(counts: &VecDeque<u16>, n: usize) -> (days: usize)
    ensures
        days == visited_days(last_days(counts@, n as nat)),
{
    let taken: usize = if n < counts.len() {
        n
    } else {
        counts.len()
    };
    let mut days: usize = 0;
    let mut i: usize = 0;
    assert(counts@.skip(counts@.len() as int).len() == 0);
    while i < taken
        invariant
            i <= taken <= counts@.len(),
            days <= i,
            days == visited_days(counts@.skip(counts@.len() - i)),
        decreases taken - i,
    {
        let at: usize = counts.len() - 1 - i;
        assert(counts@.skip(at as int).skip(1) =~= counts@.skip(at + 1));
        if counts[at] != 0 {
            days = days + 1;
        }
        i = i + 1;
    }
    assert(counts@.skip(0) =~= counts@);
    days
}

fn has_visit(counts: &VecDeque<u16>) -> (yes: bool)
    ensures
        yes == alive(counts@),
{
    let mut i: usize = 0;
    while i < counts.len()
        invariant
            i <= counts@.len(),
            forall|j: int| 0 <= j < i ==> counts@[j] == 0,
        decreases counts@.len() - i,
    {
        if counts[i] != 0 {
            return true;
        }
        i = i + 1;
    }
    false
}

/// Moves a ring forward by `days`.
fn shift_counts(counts: &mut VecDeque<u16>, days: usize)
    requires
        days <= old(counts)@.len(),
    ensures
        final(counts)@ == shifted(old(counts)@, days as nat),
{
    let mut i: usize = 0;
    let ghost before = counts@;
    assert(counts@ =~= shifted(before, 0));
    while i < days
        invariant
            i <= days <= before.len(),
            counts@ == shifted(before, i as nat),
        decreases days - i,
    {
        counts.pop_front();
        counts.push_back(0);
        i = i + 1;
        assert(counts@ =~= shifted(before, i as nat));
    }
}

impl PersonalZoneStats {
    /// What holds of every store: a window of at least a day, every ring as
    /// long as the window, no host twice, and no more hosts than the cap.
    pub closed spec fn wf(&self) -> bool {
        &&& self.window_len >= 1
        &&& unique(self.domains@)
        &&& self.domains@.len() <= MAX_TRACKED_DOMAINS
        &&& forall|i: int|
            0 <= i < self.domains@.len() ==> (#[trigger] self.domains@[i]).counts@.len()
                == self.window_len
    }

    /// The day that the rings end on.
    pub closed spec fn spec_today(&self) -> nat {
        self.today.0 as nat
    }

    /// How many days a ring has.
    pub closed spec fn window(&self) -> nat {
        self.window_len as nat
    }

    /// The tracked hosts.
    pub closed spec fn hosts(&self) -> Map<Seq<char>, Track> {
        named(self.domains@)
    }

    /// What holds of every store, whatever was visited and however often the
    /// rings moved on: never more hosts than the cap, and for each of them a
    /// ring as long as the window.
    pub proof fn law_the_cap_always_holds(&self)
        requires
            self.wf(),
        ensures
            self.window() >= 1,
            self.hosts().dom().finite(),
            self.hosts().dom().len() <= MAX_TRACKED_DOMAINS,
            forall|name: Seq<char>| #[trigger]
                self.hosts().contains_key(name) ==> self.hosts()[name].counts.len()
                    == self.window(),
    {
        lemma_named_len(self.domains@);
        assert forall|name: Seq<char>| #[trigger]
            self.hosts().contains_key(name) implies self.hosts()[name].counts.len()
            == self.window() by {
            let i = choose|i: int|
                0 <= i < self.domains@.len() && #[trigger] self.domains@[i].name@ == name;
            lemma_named_at(self.domains@, i);
        }
    }

    /// A store that tracks nothing yet.
    pub fn new(window_len: usize, today: DayIndex) -> (stats: Self)
        ensures
            stats.wf(),
            stats.spec_today() == today.0,
            stats.window() == if window_len >= 1 {
                window_len as nat
            } else {
                1
            },
            stats.hosts() == Map::<Seq<char>, Track>::empty(),
    {
        let window_len: usize = if window_len >= 1 {
            window_len
        } else {
            1
        };
        let stats = PersonalZoneStats { today, window_len, domains: Vec::new() };
        assert(stats.hosts() =~= Map::<Seq<char>, Track>::empty());
        stats
    }

    /// The day that the rings end on.
    pub fn today(&self) -> (day: DayIndex)
        ensures
            day.0 == self.spec_today(),
    {
        self.today
    }

    /// How many hosts are tracked: never more than the cap.
    pub fn tracked_domain_count(&self) -> (count: usize)
        requires
            self.wf(),
        ensures
            count == self.hosts().dom().len(),
            count <= MAX_TRACKED_DOMAINS,
    {
        proof {
            lemma_named_len(self.domains@);
        }
        self.domains.len()
    }

    /// Moves the rings forward to `new_today`, unless it is not later than
    /// their day: a clock that was set back changes nothing. Hosts without a
    /// visit left are dropped.
    pub fn rotate_day(&mut self, new_today: DayIndex)
        requires
            old(self).wf(),
        ensures
            final(self).wf(),
            final(self).window() == old(self).window(),
            final(self).spec_today() == if new_today.0 > old(self).spec_today() {
                new_today.0 as nat
            } else {
                old(self).spec_today()
            },
            final(self).hosts() == rolled(
                old(self).hosts(),
                old(self).spec_today(),
                new_today.0 as nat,
                old(self).window(),
            ),
    {
        if new_today.0 <= self.today.0 {
            return;
        }
        let days_forward: usize = (new_today.0 - self.today.0) as usize;
        let shift: usize = if days_forward <= self.window_len {
            days_forward
        } else {
            self.window_len
        };
        let mut before: Vec<TrackedDomain> = Vec::new();
        core::mem::swap(&mut before, &mut self.domains);
        let kept = rotate_domains(before, shift, Ghost(self.window_len as nat));
        self.today = new_today;
        self.domains = kept;
    }

    /// The store that a snapshot stands for on `current_today`, with rings of
    /// `window_len` days. A snapshot of more hosts than the cap allows loses
    /// those visited least recently.
    pub fn from_persisted(
        persisted: PersistedPersonalZone,
        current_today: DayIndex,
        window_len: usize,
    ) -> (stats: Self)
        ensures
            stats.wf(),
            stats.window() == if window_len >= 1 {
                window_len as nat
            } else {
                1
            },
            stats.spec_today() == if current_today.0 > persisted.today {
                current_today.0 as nat
            } else {
                persisted.today as nat
            },
            capped(
                rolled(
                    restored(stored(persisted.domains@), persisted.today as nat, stats.window()),
                    persisted.today as nat,
                    current_today.0 as nat,
                    stats.window(),
                ),
                stats.hosts(),
            ),
    {
        let window_len: usize = if window_len >= 1 {
            window_len
        } else {
            1
        };
        let old_today = DayIndex(persisted.today);
        let mut domains = restore_domains(&persisted.domains, old_today, window_len);
        let mut today = old_today;
        if current_today.0 > old_today.0 {
            let days_forward: usize = (current_today.0 - old_today.0) as usize;
            let shift: usize = if days_forward <= window_len {
                days_forward
            } else {
                window_len
            };
            domains = rotate_domains(domains, shift, Ghost(window_len as nat));
            today = current_today;
        }
        cap_domains(&mut domains, Ghost(window_len as nat));
        PersonalZoneStats { today, window_len, domains }
    }

    /// What is kept on disk: the hosts in the order of their names.
    pub fn to_persisted(&self) -> (persisted: PersistedPersonalZone)
        requires
            self.wf(),
        ensures
            persisted.today == self.spec_today(),
            stores(stored(persisted.domains@), self.hosts()),
    {
        let ghost visits = |t: Track| 0nat;
        let ghost wanted = |t: Track| true;
        let mut order: Vec<Candidate> = Vec::new();
        let mut i: usize = 0;
        while i < self.domains.len()
            invariant
                self.wf(),
                i <= self.domains@.len(),
                visits == (|t: Track| 0nat),
                wanted == (|t: Track| true),
                ranks(order@, self.domains@.take(i as int), visits, wanted),
            decreases self.domains@.len() - i,
        {
            let c = Candidate {
                visits: 0,
                name: text::chars_of(self.domains[i].name.as_str()),
                at: i,
            };
            proof {
                lemma_ranks_new(order@, self.domains@, i as int, visits, wanted);
            }
            let ghost was = order@;
            insert_ranked(&mut order, c);
            proof {
                lemma_ranks_step(was, order@, self.domains@, c, i as int, visits, wanted);
            }
            i = i + 1;
        }
        assert(self.domains@.take(i as int) =~= self.domains@);
        let mut domains: Vec<(String, Vec<u16>)> = Vec::new();
        let mut k: usize = 0;
        while k < order.len()
            invariant
                self.wf(),
                k <= order@.len(),
                domains@.len() == k,
                visits == (|t: Track| 0nat),
                wanted == (|t: Track| true),
                ranks(order@, self.domains@, visits, wanted),
                forall|j: int|
                    0 <= j < k ==> (#[trigger] domains@[j]).0@
                        == self.domains@[order@[j].at as int].name@ && domains@[j].1@
                        == self.domains@[order@[j].at as int].counts@,
            decreases order@.len() - k,
        {
            let at: usize = order[k].at;
            assert(order@[k as int].at < self.domains@.len());
            let counts = counts_vec(&self.domains[at].counts);
            domains.push((self.domains[at].name.clone(), counts));
            k = k + 1;
        }
        proof {
            let list = stored(domains@);
            assert forall|i: int, j: int| 0 <= i < j < list.len() implies text::text_before(
                (#[trigger] list[i]).0,
                (#[trigger] list[j]).0,
            ) by {
                assert(before(order@[i], order@[j]));
                assert(domains@[i].0@ == order@[i].name@);
                assert(domains@[j].0@ == order@[j].name@);
            }
            assert forall|i: int| 0 <= i < list.len() implies self.hosts().contains_key(
                (#[trigger] list[i]).0,
            ) && self.hosts()[list[i].0].counts == list[i].1 by {
                assert(domains@[i].0@ == order@[i].name@);
                lemma_named_at(self.domains@, order@[i].at as int);
            }
            assert forall|name: Seq<char>| #[trigger]
                self.hosts().contains_key(name) implies exists|i: int|
                0 <= i < list.len() && (#[trigger] list[i]).0 == name by {
                let n = choose|n: int|
                    0 <= n < self.domains@.len() && #[trigger] self.domains@[n].name@ == name;
                assert(wanted(self.domains@[n]@));
                let i = choose|i: int| 0 <= i < order@.len() && (#[trigger] order@[i]).at == n;
                assert(order@[i].at == n);
                assert(domains@[i].0@ == name);
                assert(list[i].0 == name);
            }
        }
        PersistedPersonalZone { today: self.today.0, domains }
    }

    /// The hosts that belong to the zone, each once.
    pub fn derive_qualifying_domains(&self, cfg: &PersonalZoneConfig) -> (names: Vec<String>)
        requires
            self.wf(),
        ensures
            text::texts(names@).no_duplicates(),
            forall|name: Seq<char>|
                #[trigger] text::texts(names@).contains(name) <==> qualifies(
                    self.hosts(),
                    *cfg,
                    self.window(),
                    name,
                ),
    {
        let freq_n: usize = if cfg.frequency_window_days as usize <= self.window_len {
            cfg.frequency_window_days as usize
        } else {
            self.window_len
        };
        let reg_n: usize = if cfg.regularity_window_days as usize <= self.window_len {
            cfg.regularity_window_days as usize
        } else {
            self.window_len
        };
        let ghost visits = |t: Track| visits_last(t.counts, freq_n as nat);
        let ghost wanted = |t: Track| visits_last(t.counts, freq_n as nat) > 0;
        let mut order: Vec<Candidate> = Vec::new();
        let mut i: usize = 0;
        while i < self.domains.len()
            invariant
                self.wf(),
                i <= self.domains@.len(),
                visits == (|t: Track| visits_last(t.counts, freq_n as nat)),
                wanted == (|t: Track| visits_last(t.counts, freq_n as nat) > 0),
                ranks(order@, self.domains@.take(i as int), visits, wanted),
            decreases self.domains@.len() - i,
        {
            let sum: u32 = sum_last(&self.domains[i].counts, freq_n);
            assert(sum == visits(self.domains@[i as int]@));
            let ghost was = order@;
            if sum > 0 {
                let c = Candidate {
                    visits: sum,
                    name: text::chars_of(self.domains[i].name.as_str()),
                    at: i,
                };
                proof {
                    lemma_ranks_new(order@, self.domains@, i as int, visits, wanted);
                }
                insert_ranked(&mut order, c);
                proof {
                    lemma_ranks_step(was, order@, self.domains@, c, i as int, visits, wanted);
                }
            } else {
                proof {
                    let t = self.domains@.take(i + 1);
                    let u = self.domains@.take(i as int);
                    assert forall|j: int|
                        #![trigger was[j]]
                        0 <= j < was.len() implies was[j].at < t.len() && was[j].name@
                        == t[was[j].at as int].name@ && was[j].visits == visits(
                        t[was[j].at as int]@,
                    ) && wanted(t[was[j].at as int]@) by {
                        assert(t[was[j].at as int] == u[was[j].at as int]);
                    }
                    assert forall|n: int|
                        #![trigger t[n]]
                        0 <= n < t.len() && wanted(t[n]@) implies exists|j: int|
                        0 <= j < was.len() && (#[trigger] was[j]).at == n by {
                        assert(n < i);
                        assert(u[n] == t[n]);
                    }
                }
            }
            i = i + 1;
        }
        assert(self.domains@.take(i as int) =~= self.domains@);
        let top: usize = if cfg.frequency_top_n as usize <= order.len() {
            cfg.frequency_top_n as usize
        } else {
            order.len()
        };
        let mut names: Vec<String> = Vec::new();
        let mut k: usize = 0;
        while k < self.domains.len()
            invariant
                self.wf(),
                k <= self.domains@.len(),
                freq_n == within(cfg.frequency_window_days, self.window_len as nat),
                reg_n == within(cfg.regularity_window_days, self.window_len as nat),
                visits == (|t: Track| visits_last(t.counts, freq_n as nat)),
                wanted == (|t: Track| visits_last(t.counts, freq_n as nat) > 0),
                ranks(order@, self.domains@, visits, wanted),
                top == if cfg.frequency_top_n <= order@.len() {
                    cfg.frequency_top_n as int
                } else {
                    order@.len() as int
                },
                text::texts(names@).no_duplicates(),
                forall|name: Seq<char>| #[trigger]
                    text::texts(names@).contains(name) <==> exists|j: int|
                        0 <= j < k && (#[trigger] self.domains@[j]).name@ == name && qualifies(
                            self.hosts(),
                            *cfg,
                            self.window(),
                            name,
                        ),
            decreases self.domains@.len() - k,
        {
            let days: usize = count_nonzero_last(&self.domains[k].counts, reg_n);
            let counted: u64 = if days as u64 <= u32::MAX as u64 {
                days as u64
            } else {
                0
            };
            let is_regular: bool = counted >= cfg.regularity_min_days as u64;
            let is_frequent: bool = in_first(&order, top, k);
            let ghost name = self.domains@[k as int].name@;
            let ghost was = names@;
            proof {
                lemma_named_at(self.domains@, k as int);
                lemma_frequent(order@, self.domains@, freq_n as nat, k as int);
                assert(is_frequent == frequent(self.hosts(), *cfg, self.window(), name));
                assert(is_regular == regular(self.hosts(), *cfg, self.window(), name));
            }
            if is_regular || is_frequent {
                names.push(self.domains[k].name.clone());
                proof {
                    let seen = text::texts(was);
                    assert(text::texts(names@) =~= seen.push(name));
                    if seen.contains(name) {
                        let j = choose|j: int|
                            0 <= j < k && (#[trigger] self.domains@[j]).name@ == name;
                        assert(self.domains@[j].name@ != self.domains@[k as int].name@);
                    }
                    assert forall|n: Seq<char>| #[trigger]
                        text::texts(names@).contains(n) <==> exists|j: int|
                            0 <= j < k + 1 && (#[trigger] self.domains@[j]).name@ == n && qualifies(
                                self.hosts(),
                                *cfg,
                                self.window(),
                                n,
                            ) by {
                        if text::texts(names@).contains(n) {
                            let at = choose|at: int|
                                0 <= at < text::texts(names@).len() && text::texts(names@)[at] == n;
                            if at < seen.len() {
                                assert(seen[at] == n);
                                assert(seen.contains(n));
                                let j = choose|j: int|
                                    0 <= j < k && (#[trigger] self.domains@[j]).name@ == n;
                                assert(self.domains@[j].name@ == n);
                            } else {
                                assert(self.domains@[k as int].name@ == n);
                            }
                        }
                        if exists|j: int|
                            0 <= j < k + 1 && (#[trigger] self.domains@[j]).name@ == n && qualifies(
                                self.hosts(),
                                *cfg,
                                self.window(),
                                n,
                            ) {
                            let j = choose|j: int|
                                0 <= j < k + 1 && (#[trigger] self.domains@[j]).name@ == n;
                            if j < k {
                                assert(seen.contains(n));
                                let at = choose|at: int| 0 <= at < seen.len() && seen[at] == n;
                                assert(text::texts(names@)[at] == n);
                            } else {
                                assert(text::texts(names@)[seen.len() as int] == n);
                            }
                        }
                    }
                }
            } else {
                proof {
                    assert forall|n: Seq<char>| #[trigger]
                        text::texts(names@).contains(n) <==> exists|j: int|
                            0 <= j < k + 1 && (#[trigger] self.domains@[j]).name@ == n && qualifies(
                                self.hosts(),
                                *cfg,
                                self.window(),
                                n,
                            ) by {
                        if exists|j: int|
                            0 <= j < k + 1 && (#[trigger] self.domains@[j]).name@ == n && qualifies(
                                self.hosts(),
                                *cfg,
                                self.window(),
                                n,
                            ) {
                            let j = choose|j: int|
                                0 <= j < k + 1 && (#[trigger] self.domains@[j]).name@ == n;
                            assert(j < k);
                        }
                    }
                }
            }
            k = k + 1;
        }
        proof {
            assert forall|name: Seq<char>|
                #[trigger] text::texts(names@).contains(name) <==> qualifies(
                    self.hosts(),
                    *cfg,
                    self.window(),
                    name,
                ) by {
                if qualifies(self.hosts(), *cfg, self.window(), name) {
                    assert(self.hosts().contains_key(name));
                    let j = choose|j: int|
                        0 <= j < self.domains@.len() && #[trigger] self.domains@[j].name@ == name;
                    assert(self.domains@[j].name@ == name);
                }
            }
        }
        names
    }

    /// The position of `host`, or the number of hosts.
    fn position(&self, host: &str) -> (at: usize)
        requires
            self.wf(),
        ensures
            at <= self.domains@.len(),
            at < self.domains@.len() ==> self.domains@[at as int].name@ == host@,
            at == self.domains@.len() <==> !self.hosts().contains_key(host@),
    {
        let at: usize = find_domain(&self.domains, host);
        proof {
            if at < self.domains@.len() {
                lemma_named_at(self.domains@, at as int);
            }
        }
        at
    }

    /// Drops one of the hosts that were visited least recently, if any.
    fn evict_oldest(&mut self)
        requires
            old(self).wf(),
            old(self).domains@.len() > 0,
        ensures
            final(self).wf(),
            final(self).domains@.len() == old(self).domains@.len() - 1,
            final(self).window() == old(self).window(),
            final(self).spec_today() == old(self).spec_today(),
            exists|gone: Seq<char>| #[trigger]
                least_recent(old(self).hosts(), gone) && final(self).hosts() == old(
                    self,
                ).hosts().remove(gone),
    {
        let at: usize = oldest(&self.domains);
        let ghost before = self.domains@;
        let ghost gone = before[at as int].name@;
        self.domains.remove(at);
        proof {
            lemma_named_remove(before, at as int);
            lemma_oldest(before, at as int);
            assert forall|i: int| 0 <= i < self.domains@.len() implies (#[trigger]
            self.domains@[i]).counts@.len() == self.window_len by {
                assert(self.domains@[i] == before[if i < at { i } else { i + 1 }]);
            }
            assert(least_recent(old(self).hosts(), gone));
        }
    }

    /// Counts a visit of `host` on `today`, after moving the rings forward to
    /// that day. A host that is new to a full store takes the place of one
    /// visited least recently.
    pub fn record_visit(&mut self, host: &str, today: DayIndex)
        requires
            old(self).wf(),
        ensures
            final(self).wf(),
            final(self).window() == old(self).window(),
            final(self).spec_today() == if today.0 > old(self).spec_today() {
                today.0 as nat
            } else {
                old(self).spec_today()
            },
            visited(
                rolled(
                    old(self).hosts(),
                    old(self).spec_today(),
                    today.0 as nat,
                    old(self).window(),
                ),
                host@,
                today.0 as nat,
                old(self).window(),
                final(self).hosts(),
            ),
    {
        self.rotate_day(today);
        let ghost m = self.hosts();
        let ghost window = self.window_len as nat;
        proof {
            lemma_named_len(self.domains@);
        }
        let at: usize = self.position(host);
        if at < self.domains.len() {
            let ghost before = self.domains@;
            proof {
                lemma_named_at(before, at as int);
            }
            count_visit(&mut self.domains[at], today);
            proof {
                assert(self.domains@ =~= before.update(at as int, self.domains@[at as int]));
                lemma_named_update(before, at as int, self.domains@[at as int]);
            }
            return;
        }
        if self.domains.len() >= MAX_TRACKED_DOMAINS {
            self.evict_oldest();
        }
        let ghost rest = self.hosts();
        let mut counts: VecDeque<u16> = VecDeque::new();
        let mut i: usize = 1;
        while i < self.window_len
            invariant
                1 <= i <= self.window_len,
                counts@ == quiet((i - 1) as nat),
                self.wf(),
                self.hosts() == rest,
                self.window_len == window,
                self.domains@.len() < MAX_TRACKED_DOMAINS,
                self.spec_today() == if today.0 > old(self).spec_today() {
                    today.0 as nat
                } else {
                    old(self).spec_today()
                },
            decreases self.window_len - i,
        {
            counts.push_back(0);
            i = i + 1;
            assert(counts@ =~= quiet((i - 1) as nat));
        }
        counts.push_back(1);
        let ghost before = self.domains@;
        let domain = TrackedDomain { name: host.to_owned(), counts, last_visited: today };
        proof {
            assert(!rest.contains_key(host@));
            lemma_named_push(before, domain);
            assert(domain@ == Track { counts: first_visit(window), last_visited: today.0 as nat });
        }
        self.domains.push(domain);
    }
}

/// The entries of `domains` once every ring has moved forward by `shift`.
fn rotate_domains(domains: Vec<TrackedDomain>, shift: usize, Ghost(window): Ghost<nat>) -> (kept:
    Vec<TrackedDomain>)
    requires
        unique(domains@),
        shift <= window,
        forall|i: int|
            0 <= i < domains@.len() ==> (#[trigger] domains@[i]).counts@.len() == window,
    ensures
        unique(kept@),
        kept@.len() <= domains@.len(),
        forall|i: int| 0 <= i < kept@.len() ==> (#[trigger] kept@[i]).counts@.len() == window,
        named(kept@) == rotated(named(domains@), shift as nat),
{
    let mut before = domains;
    let ghost all = before@;
    let mut kept: Vec<TrackedDomain> = Vec::new();
    proof {
        assert(named(kept@) =~= Map::empty());
        assert(named(all.skip(all.len() as int)) =~= Map::empty());
        assert(rotated(named(all.skip(all.len() as int)), shift as nat) =~= Map::empty());
        assert(before@ =~= all.take(all.len() as int));
    }
    while before.len() > 0
        invariant
            before@.len() <= all.len(),
            before@ == all.take(before@.len() as int),
            unique(all),
            unique(kept@),
            shift <= window,
            forall|i: int| 0 <= i < all.len() ==> (#[trigger] all[i]).counts@.len() == window,
            forall|i: int| 0 <= i < kept@.len() ==> (#[trigger] kept@[i]).counts@.len() == window,
            kept@.len() + before@.len() <= all.len(),
            named(kept@) == rotated(named(all.skip(before@.len() as int)), shift as nat),
        decreases before@.len(),
    {
        let ghost n = before@.len() as int;
        let popped = before.pop();
        let mut domain = match popped {
            Some(domain) => domain,
            None => {
                assert(false);
                return kept;
            },
        };
        proof {
            lemma_rotated_step(all, n - 1, shift as nat);
        }
        shift_counts(&mut domain.counts, shift);
        let ghost kept_before = kept@;
        if has_visit(&domain.counts) {
            kept.push(domain);
            proof {
                lemma_named_push(kept_before, domain);
            }
        }
    }
    assert(all.skip(0) =~= all);
    kept
}

/// A host with its place in a ranking.
struct Candidate {
    visits: u32,
    name: Vec<char>,
    at: usize,
}

spec fn before(a: Candidate, b: Candidate) -> bool {
    precedes(a.visits as nat, a.name@, b.visits as nat, b.name@)
}

spec fn ranked(v: Seq<Candidate>) -> bool {
    forall|i: int, j: int| 0 <= i < j < v.len() ==> before(#[trigger] v[i], #[trigger] v[j])
}

proof fn lemma_before_transitive(a: Candidate, b: Candidate, c: Candidate)
    requires
        before(a, b),
        before(b, c),
    ensures
        before(a, c),
{
    if a.visits == b.visits && b.visits == c.visits {
        text::lemma_text_order_transitive(a.name@, b.name@, c.name@);
    }
}

proof fn lemma_before_strict(a: Candidate, b: Candidate)
    ensures
        !(before(a, b) && before(b, a)),
{
    text::lemma_text_order_strict(a.name@, b.name@);
}

/// Whether `a` comes before `b` in a ranking.
fn comes_before(a: &Candidate, b: &Candidate) -> (yes: bool)
    ensures
        yes == before(*a, *b),
{
    if a.visits != b.visits {
        a.visits > b.visits
    } else {
        text::chars_before(&a.name, &b.name)
    }
}

/// Puts `c` at its place in a ranking.
fn insert_ranked(v: &mut Vec<Candidate>, c: Candidate)
    requires
        ranked(old(v)@),
        forall|i: int| 0 <= i < old(v)@.len() ==> (#[trigger] old(v)@[i]).name@ != c.name@,
    ensures
        ranked(final(v)@),
        exists|at: int|
            0 <= at <= old(v)@.len() && final(v)@ == #[trigger] old(v)@.insert(at, c),
{
    let mut lo: usize = 0;
    let mut hi: usize = v.len();
    while lo < hi
        invariant
            lo <= hi <= v@.len(),
            ranked(v@),
            forall|i: int| 0 <= i < v@.len() ==> (#[trigger] v@[i]).name@ != c.name@,
            forall|i: int| 0 <= i < lo ==> before(#[trigger] v@[i], c),
            forall|i: int| hi <= i < v@.len() ==> before(c, #[trigger] v@[i]),
        decreases hi - lo,
    {
        let mid: usize = lo + (hi - lo) / 2;
        if comes_before(&v[mid], &c) {
            proof {
                assert forall|i: int| 0 <= i < mid + 1 implies before(#[trigger] v@[i], c) by {
                    if i < mid {
                        lemma_before_transitive(v@[i], v@[mid as int], c);
                    }
                }
            }
            lo = mid + 1;
        } else {
            proof {
                text::lemma_text_order_total(v@[mid as int].name@, c.name@);
                assert forall|i: int| mid <= i < v@.len() implies before(c, #[trigger] v@[i]) by {
                    if i > mid {
                        lemma_before_transitive(c, v@[mid as int], v@[i]);
                    }
                }
            }
            hi = mid;
        }
    }
    let ghost was = v@;
    v.insert(lo, c);
    proof {
        assert(v@ == was.insert(lo as int, c));
        assert forall|i: int, j: int| 0 <= i < j < v@.len() implies before(
            #[trigger] v@[i],
            #[trigger] v@[j],
        ) by {
            let a = if i < lo { i } else { i - 1 };
            let b = if j < lo { j } else { j - 1 };
            if i != lo && j != lo {
                assert(v@[i] == was[a] && v@[j] == was[b]);
            } else if i == lo {
                assert(v@[j] == was[b]);
            } else {
                assert(v@[i] == was[a]);
            }
        }
    }
}

/// Whether `v` ranks exactly the hosts of `s` that `wanted` picks, with the
/// visits that `visits` gives them.
spec fn ranks(
    v: Seq<Candidate>,
    s: Seq<TrackedDomain>,
    visits: spec_fn(Track) -> nat,
    wanted: spec_fn(Track) -> bool,
) -> bool {
    &&& ranked(v)
    &&& forall|i: int|
        #![trigger v[i]]
        0 <= i < v.len() ==> {
            &&& v[i].at < s.len()
            &&& v[i].name@ == s[v[i].at as int].name@
            &&& v[i].visits == visits(s[v[i].at as int]@)
            &&& wanted(s[v[i].at as int]@)
        }
    &&& forall|k: int|
        #![trigger s[k]]
        0 <= k < s.len() && wanted(s[k]@) ==> exists|i: int|
            0 <= i < v.len() && (#[trigger] v[i]).at == k
}

/// A ranking of one host more.
proof fn lemma_ranks_step(
    v: Seq<Candidate>,
    after: Seq<Candidate>,
    s: Seq<TrackedDomain>,
    c: Candidate,
    k: int,
    visits: spec_fn(Track) -> nat,
    wanted: spec_fn(Track) -> bool,
)
    requires
        0 <= k < s.len(),
        ranks(v, s.take(k), visits, wanted),
        ranked(after),
        exists|at: int| 0 <= at <= v.len() && after == #[trigger] v.insert(at, c),
        c.at == k,
        c.name@ == s[k].name@,
        c.visits == visits(s[k]@),
        wanted(s[k]@),
    ensures
        ranks(after, s.take(k + 1), visits, wanted),
{
    let at = choose|at: int| 0 <= at <= v.len() && after == #[trigger] v.insert(at, c);
    let t = s.take(k + 1);
    let u = s.take(k);
    assert forall|i: int|
        #![trigger after[i]]
        0 <= i < after.len() implies after[i].at < t.len() && after[i].name@
        == t[after[i].at as int].name@ && after[i].visits == visits(t[after[i].at as int]@)
        && wanted(t[after[i].at as int]@) by {
        if i != at {
            let j = if i < at { i } else { i - 1 };
            assert(after[i] == v[j]);
            assert(v[j].at < u.len());
            assert(t[v[j].at as int] == u[v[j].at as int]);
        }
    }
    assert forall|n: int|
        #![trigger t[n]]
        0 <= n < t.len() && wanted(t[n]@) implies exists|i: int|
        0 <= i < after.len() && (#[trigger] after[i]).at == n by {
        if n < k {
            assert(u[n] == t[n]);
            let i = choose|i: int| 0 <= i < v.len() && (#[trigger] v[i]).at == n;
            assert(v[i].at == n);
            let j = if i < at { i } else { i + 1 };
            assert(after[j] == v[i]);
        } else {
            assert(after[at].at == n);
        }
    }
}

/// The names in a ranking are not those of hosts outside it.
proof fn lemma_ranks_new(
    v: Seq<Candidate>,
    s: Seq<TrackedDomain>,
    k: int,
    visits: spec_fn(Track) -> nat,
    wanted: spec_fn(Track) -> bool,
)
    requires
        unique(s),
        0 <= k < s.len(),
        ranks(v, s.take(k), visits, wanted),
    ensures
        forall|i: int| 0 <= i < v.len() ==> (#[trigger] v[i]).name@ != s[k].name@,
{
    assert forall|i: int| 0 <= i < v.len() implies (#[trigger] v[i]).name@ != s[k].name@ by {
        let a = v[i].at as int;
        assert(s.take(k)[a] == s[a]);
        assert(s[a].name@ != s[k].name@);
    }
}

/// The position of the first of `domains` named `host`, or their number.
fn find_domain(domains: &Vec<TrackedDomain>, host: &str) -> (at: usize)
    ensures
        at <= domains@.len(),
        at < domains@.len() ==> domains@[at as int].name@ == host@,
        at == domains@.len() <==> !named(domains@).contains_key(host@),
{
    let mut i: usize = 0;
    while i < domains.len()
        invariant
            i <= domains@.len(),
            forall|j: int| 0 <= j < i ==> (#[trigger] domains@[j]).name@ != host@,
        decreases domains@.len() - i,
    {
        if text::same_text(domains[i].name.as_str(), host) {
            assert(domains@[i as int].name@ == host@);
            return i;
        }
        i = i + 1;
    }
    i
}

/// The counts of a ring, oldest first.
fn counts_vec(counts: &VecDeque<u16>) -> (v: Vec<u16>)
    ensures
        v@ == counts@,
{
    let mut v: Vec<u16> = Vec::new();
    let mut i: usize = 0;
    while i < counts.len()
        invariant
            i <= counts@.len(),
            v@ == counts@.take(i as int),
        decreases counts@.len() - i,
    {
        v.push(counts[i]);
        i = i + 1;
        assert(counts@.take(i as int) =~= counts@.take(i - 1).push(counts@[i - 1]));
    }
    assert(counts@.take(i as int) =~= counts@);
    v
}

/// Whether one of the first `top` places of a ranking is that of entry `k`.
fn in_first(order: &Vec<Candidate>, top: usize, k: usize) -> (yes: bool)
    requires
        top <= order@.len(),
    ensures
        yes == exists|i: int| 0 <= i < top && (#[trigger] order@[i]).at == k,
{
    let mut i: usize = 0;
    while i < top
        invariant
            i <= top <= order@.len(),
            forall|j: int| 0 <= j < i ==> (#[trigger] order@[j]).at != k,
        decreases top - i,
    {
        if order[i].at == k {
            return true;
        }
        i = i + 1;
    }
    false
}

/// In a ranking by visits, the place of an entry is its rank.
proof fn lemma_frequent(order: Seq<Candidate>, s: Seq<TrackedDomain>, n: nat, k: int)
    requires
        unique(s),
        0 <= k < s.len(),
        ranks(
            order,
            s,
            |t: Track| visits_last(t.counts, n),
            |t: Track| visits_last(t.counts, n) > 0,
        ),
    ensures
        visits_last(s[k].counts@, n) > 0 ==> exists|i: int|
            0 <= i < order.len() && (#[trigger] order[i]).at == k,
        forall|i: int|
            0 <= i < order.len() && (#[trigger] order[i]).at == k ==> visits_last(s[k].counts@, n)
                > 0 && frequency_rank(named(s), n, s[k].name@) == i,
        forall|i: int, j: int|
            0 <= i < j < order.len() ==> (#[trigger] order[i]).at != (#[trigger] order[j]).at,
{
    let m = named(s);
    let wanted = |t: Track| visits_last(t.counts, n) > 0;
    let visits = |t: Track| visits_last(t.counts, n);
    assert(wanted(s[k]@) == (visits_last(s[k].counts@, n) > 0));
    assert forall|i: int, j: int| 0 <= i < j < order.len() implies (#[trigger] order[i]).at != (
    #[trigger] order[j]).at by {
        lemma_before_strict(order[i], order[j]);
    }
    assert forall|i: int| 0 <= i < order.len() && (#[trigger] order[i]).at == k implies visits_last(
        s[k].counts@,
        n,
    ) > 0 && frequency_rank(m, n, s[k].name@) == i by {
        assert(wanted(s[k]@));
        let name = s[k].name@;
        let first = Seq::new(i as nat, |j: int| order[j].name@);
        lemma_named_at(s, k);
        assert forall|a: int, b: int| 0 <= a < first.len() && 0 <= b < first.len() && a
            != b implies first[a] != first[b] by {
            if a < b {
                assert(before(order[a], order[b]));
                lemma_before_strict(order[a], order[b]);
            } else {
                assert(before(order[b], order[a]));
                lemma_before_strict(order[b], order[a]);
            }
        }
        assert(first.no_duplicates());
        first.unique_seq_to_set();
        let set = m.dom().filter(|other: Seq<char>| ahead(m, n, other, name));
        assert forall|other: Seq<char>| first.to_set().contains(other) <==> #[trigger]
            set.contains(other) by {
            if first.to_set().contains(other) {
                let j = choose|j: int| 0 <= j < first.len() && first[j] == other;
                assert(order[j].name@ == other);
                lemma_named_at(s, order[j].at as int);
                assert(before(order[j], order[i]));
                assert(visits(s[order[j].at as int]@) == order[j].visits);
                assert(visits(s[order[i].at as int]@) == order[i].visits);
            }
            if set.contains(other) {
                let o = choose|o: int| 0 <= o < s.len() && #[trigger] s[o].name@ == other;
                lemma_named_at(s, o);
                assert(visits(s[order[i].at as int]@) == order[i].visits);
                assert(wanted(s[o]@));
                let j = choose|j: int| 0 <= j < order.len() && (#[trigger] order[j]).at == o;
                assert(order[j].at == o);
                assert(visits(s[order[j].at as int]@) == order[j].visits);
                assert(before(order[j], order[i]));
                lemma_before_strict(order[j], order[i]);
                if j > i {
                    assert(before(order[i], order[j]));
                }
                assert(j < i);
                assert(first[j] == other);
            }
        }
        assert(first.to_set() =~= set);
    }
}

/// The entries that a stored list stands for.
fn restore_domains(stored_domains: &Vec<(String, Vec<u16>)>, today: DayIndex, window_len: usize) -> (
domains: Vec<TrackedDomain>)
    ensures
        unique(domains@),
        forall|i: int|
            0 <= i < domains@.len() ==> (#[trigger] domains@[i]).counts@.len() == window_len,
        named(domains@) == restored(stored(stored_domains@), today.0 as nat, window_len as nat),
{
    let mut domains: Vec<TrackedDomain> = Vec::new();
    let mut i: usize = 0;
    let ghost list = stored(stored_domains@);
    proof {
        assert(list.take(0) =~= Seq::empty());
        assert(named(domains@) =~= Map::empty());
    }
    while i < stored_domains.len()
        invariant
            i <= stored_domains@.len(),
            list == stored(stored_domains@),
            unique(domains@),
            forall|j: int|
                0 <= j < domains@.len() ==> (#[trigger] domains@[j]).counts@.len() == window_len,
            named(domains@) == restored(list.take(i as int), today.0 as nat, window_len as nat),
        decreases stored_domains@.len() - i,
    {
        let entry = &stored_domains[i];
        let counts = resize_counts(&entry.1, window_len);
        let last_visited = last_visited_from_counts(&counts, today);
        let domain = TrackedDomain { name: entry.0.clone(), counts, last_visited };
        let at: usize = find_domain(&domains, entry.0.as_str());
        let ghost before = domains@;
        proof {
            assert(list.take(i + 1).drop_last() =~= list.take(i as int));
            assert(list.take(i + 1).last() == (entry.0@, entry.1@));
        }
        if at < domains.len() {
            domains.set(at, domain);
            proof {
                lemma_named_update(before, at as int, domain);
            }
        } else {
            domains.push(domain);
            proof {
                lemma_named_push(before, domain);
            }
        }
        i = i + 1;
    }
    assert(list.take(i as int) =~= list);
    domains
}

/// Drops hosts visited least recently until the cap holds.
fn cap_domains(domains: &mut Vec<TrackedDomain>, Ghost(window): Ghost<nat>)
    requires
        unique(old(domains)@),
        forall|i: int|
            0 <= i < old(domains)@.len() ==> (#[trigger] old(domains)@[i]).counts@.len() == window,
    ensures
        unique(final(domains)@),
        final(domains)@.len() <= MAX_TRACKED_DOMAINS,
        forall|i: int|
            0 <= i < final(domains)@.len() ==> (#[trigger] final(domains)@[i]).counts@.len()
                == window,
        capped(named(old(domains)@), named(final(domains)@)),
{
    let ghost m = named(domains@);
    proof {
        lemma_named_len(domains@);
    }
    while domains.len() > MAX_TRACKED_DOMAINS
        invariant
            unique(domains@),
            forall|i: int|
                0 <= i < domains@.len() ==> (#[trigger] domains@[i]).counts@.len() == window,
            named(domains@).submap_of(m),
            domains@.len() <= m.dom().len(),
            domains@.len() == m.dom().len() || domains@.len() >= MAX_TRACKED_DOMAINS,
            forall|gone: Seq<char>, stays: Seq<char>|
                m.contains_key(gone) && !named(domains@).contains_key(gone) && named(
                    domains@,
                ).contains_key(stays) ==> #[trigger] m[gone].last_visited
                    <= #[trigger] m[stays].last_visited,
        decreases domains@.len(),
    {
        let at: usize = oldest(domains);
        let ghost before = domains@;
        domains.remove(at);
        proof {
            lemma_named_remove(before, at as int);
            lemma_oldest(before, at as int);
            assert forall|i: int| 0 <= i < domains@.len() implies (#[trigger]
            domains@[i]).counts@.len() == window by {
                assert(domains@[i] == before[if i < at { i } else { i + 1 }]);
            }
            let dropped = before[at as int].name@;
            assert forall|gone: Seq<char>, stays: Seq<char>|
                m.contains_key(gone) && !named(domains@).contains_key(gone) && named(
                    domains@,
                ).contains_key(stays) implies #[trigger] m[gone].last_visited
                <= #[trigger] m[stays].last_visited by {
                assert(named(before).contains_key(stays));
                if gone == dropped {
                    assert(named(before).contains_key(dropped));
                    assert(named(before)[dropped].last_visited <= named(before)[stays].last_visited);
                    assert(m.contains_key(stays));
                } else {
                    assert(!named(before).contains_key(gone));
                }
            }
        }
    }
    proof {
        lemma_named_len(domains@);
    }
}

/// One visit more on the last day of a host's ring.
fn count_visit(domain: &mut TrackedDomain, today: DayIndex)
    requires
        old(domain).counts@.len() > 0,
    ensures
        final(domain).name == old(domain).name,
        final(domain).counts@ == one_more(old(domain).counts@),
        final(domain).counts@.len() == old(domain).counts@.len(),
        final(domain).last_visited == today,
{
    domain.last_visited = today;
    let last = domain.counts.pop_back();
    match last {
        Some(last) => {
            domain.counts.push_back(last.saturating_add(1));
        },
        None => {},
    }
    assert(domain.counts@ =~= one_more(old(domain).counts@));
}

/// The position of a host that was visited least recently.
fn oldest(domains: &Vec<TrackedDomain>) -> (at: usize)
    requires
        domains@.len() > 0,
    ensures
        at < domains@.len(),
        forall|j: int|
            0 <= j < domains@.len() ==> domains@[at as int].last_visited.0 <= (
            #[trigger] domains@[j]).last_visited.0,
{
    let mut at: usize = 0;
    let mut i: usize = 1;
    while i < domains.len()
        invariant
            at < i <= domains@.len(),
            forall|j: int|
                0 <= j < i ==> domains@[at as int].last_visited.0 <= (
                #[trigger] domains@[j]).last_visited.0,
        decreases domains@.len() - i,
    {
        if domains[i].last_visited.0 < domains[at].last_visited.0 {
            at = i;
        }
        i = i + 1;
    }
    at
}

proof fn lemma_oldest(s: Seq<TrackedDomain>, at: int)
    requires
        unique(s),
        0 <= at < s.len(),
        forall|j: int|
            0 <= j < s.len() ==> s[at].last_visited.0 <= (#[trigger] s[j]).last_visited.0,
    ensures
        least_recent(named(s), s[at].name@),
{
    lemma_named_at(s, at);
    assert forall|other: Seq<char>| #[trigger] named(s).contains_key(other) implies named(
        s,
    )[s[at].name@].last_visited <= named(s)[other].last_visited by {
        let j = choose|j: int| 0 <= j < s.len() && #[trigger] s[j].name@ == other;
        lemma_named_at(s, j);
    }
}

/// How the hosts that are left after a shift grow by one entry.
proof fn lemma_rotated_step(all: Seq<TrackedDomain>, at: int, shift: nat)
    requires
        unique(all),
        0 <= at < all.len(),
    ensures
        !rotated(named(all.skip(at + 1)), shift).contains_key(all[at].name@),
        rotated(named(all.skip(at)), shift) == if alive(shifted(all[at].counts@, shift)) {
            rotated(named(all.skip(at + 1)), shift).insert(
                all[at].name@,
                Track {
                    counts: shifted(all[at].counts@, shift),
                    last_visited: all[at].last_visited.0 as nat,
                },
            )
        } else {
            rotated(named(all.skip(at + 1)), shift)
        },
{
    let rest = all.skip(at + 1);
    let more = all.skip(at);
    let name = all[at].name@;
    assert(unique(rest)) by {
        assert forall|i: int, j: int| 0 <= i < j < rest.len() implies #[trigger] rest[i].name@
            != #[trigger] rest[j].name@ by {
            assert(all[at + 1 + i].name@ != all[at + 1 + j].name@);
        }
    }
    if named(rest).contains_key(name) {
        let i = choose|i: int| 0 <= i < rest.len() && #[trigger] rest[i].name@ == name;
        assert(all[at].name@ != all[at + 1 + i].name@);
    }
    let swapped = rest.push(all[at]);
    lemma_named_push(rest, all[at]);
    assert(named(more) =~= named(swapped)) by {
        assert(unique(more)) by {
            assert forall|i: int, j: int| 0 <= i < j < more.len() implies #[trigger] more[i].name@
                != #[trigger] more[j].name@ by {
                assert(all[at + i].name@ != all[at + j].name@);
            }
        }
        assert forall|n: Seq<char>| #[trigger]
            named(more).contains_key(n) <==> named(swapped).contains_key(n) by {
            if named(more).contains_key(n) {
                let i = choose|i: int| 0 <= i < more.len() && #[trigger] more[i].name@ == n;
                if i == 0 {
                    assert(swapped[rest.len() as int].name@ == n);
                } else {
                    assert(swapped[i - 1].name@ == n);
                }
            }
            if named(swapped).contains_key(n) {
                let i = choose|i: int| 0 <= i < swapped.len() && #[trigger] swapped[i].name@ == n;
                if i == rest.len() {
                    assert(more[0].name@ == n);
                } else {
                    assert(more[i + 1].name@ == n);
                }
            }
        }
        assert forall|n: Seq<char>| named(more).contains_key(n) implies #[trigger] named(more)[n]
            == named(swapped)[n] by {
            let i = choose|i: int| 0 <= i < more.len() && #[trigger] more[i].name@ == n;
            lemma_named_at(more, i);
            if i == 0 {
                lemma_named_at(swapped, rest.len() as int);
            } else {
                lemma_named_at(swapped, i - 1);
            }
        }
    }
    let left = rotated(named(more), shift);
    let right = if alive(shifted(all[at].counts@, shift)) {
        rotated(named(rest), shift).insert(
            name,
            Track {
                counts: shifted(all[at].counts@, shift),
                last_visited: all[at].last_visited.0 as nat,
            },
        )
    } else {
        rotated(named(rest), shift)
    };
    assert(left =~= right);
}

/// Two shifts of a ring one after the other are one shift.
proof fn lemma_shifts_add(counts: Seq<u16>, first: nat, second: nat)
    requires
        first <= counts.len(),
        second <= counts.len(),
    ensures
        shifted(shifted(counts, first), second) == shifted(
            counts,
            if first + second <= counts.len() {
                first + second
            } else {
                counts.len()
            },
        ),
{
    let both = if first + second <= counts.len() {
        first + second
    } else {
        counts.len()
    };
    let once = shifted(counts, both);
    let twice = shifted(shifted(counts, first), second);
    assert(once.len() == twice.len());
    assert forall|i: int| 0 <= i < once.len() implies once[i] == twice[i] by {
        if i < counts.len() - second {
            assert(twice[i] == shifted(counts, first)[i + second]);
        }
    }
    assert(once =~= twice);
}

/// What a longer shift leaves alive, a shorter one does too.
proof fn lemma_alive_before(counts: Seq<u16>, first: nat, second: nat)
    requires
        first <= counts.len(),
        second <= counts.len(),
        alive(shifted(shifted(counts, first), second)),
    ensures
        alive(shifted(counts, first)),
{
    let once = shifted(counts, first);
    let twice = shifted(once, second);
    let i = choose|i: int| 0 <= i < twice.len() && #[trigger] twice[i] != 0;
    assert(i < once.len() - second);
    assert(once[i + second] == twice[i]);
}

/// Moving the rings forward in two steps comes to the same as in one.
pub proof fn law_rolls_compose(
    m: Map<Seq<char>, Track>,
    from: nat,
    between: nat,
    to: nat,
    window: nat,
)
    requires
        from <= between <= to,
        forall|name: Seq<char>| #[trigger] m.contains_key(name) ==> m[name].counts.len() == window,
    ensures
        rolled(rolled(m, from, between, window), between, to, window) == rolled(
            m,
            from,
            to,
            window,
        ),
{
    if from < between && between < to {
        let first = shift_between(from, between, window);
        let second = shift_between(between, to, window);
        let both = shift_between(from, to, window);
        let twice = rotated(rotated(m, first), second);
        let once = rotated(m, both);
        assert forall|name: Seq<char>| #[trigger] m.contains_key(name) implies shifted(
            shifted(m[name].counts, first),
            second,
        ) == shifted(m[name].counts, both) by {
            lemma_shifts_add(m[name].counts, first, second);
        }
        assert forall|name: Seq<char>| #[trigger]
            twice.contains_key(name) <==> once.contains_key(name) by {
            if once.contains_key(name) {
                lemma_alive_before(m[name].counts, first, second);
            }
        }
        assert(twice =~= once);
    }
}

/// After as many days without a visit as the rings are long, no host is left.
pub proof fn law_a_long_gap_clears_everything(
    m: Map<Seq<char>, Track>,
    from: nat,
    to: nat,
    window: nat,
)
    requires
        window >= 1,
        from + window <= to,
        forall|name: Seq<char>| #[trigger] m.contains_key(name) ==> m[name].counts.len() == window,
    ensures
        rolled(m, from, to, window) == Map::<Seq<char>, Track>::empty(),
{
    assert forall|name: Seq<char>| !rolled(m, from, to, window).contains_key(name) by {
        if m.contains_key(name) {
            let after = shifted(m[name].counts, window);
            assert forall|i: int| 0 <= i < after.len() implies after[i] == 0 by {}
        }
    }
    assert(rolled(m, from, to, window) =~= Map::<Seq<char>, Track>::empty());
}

/// A visit leaves the host among those tracked, with a visit on its last day;
/// every other host that stays is as it was.
pub proof fn law_a_visit_is_kept(
    m: Map<Seq<char>, Track>,
    host: Seq<char>,
    day: nat,
    window: nat,
    after: Map<Seq<char>, Track>,
)
    requires
        window >= 1,
        forall|name: Seq<char>| #[trigger] m.contains_key(name) ==> m[name].counts.len() == window,
        visited(m, host, day, window, after),
    ensures
        after.contains_key(host),
        after[host].counts.len() == window,
        after[host].counts.last() > 0,
        after[host].last_visited == day,
        forall|other: Seq<char>| #[trigger]
            after.contains_key(other) && other != host ==> m.contains_key(other) && after[other]
                == m[other],
{
}

/// No more hosts belong to the zone by frequency than the ranking has places.
pub proof fn law_the_ranking_has_so_many_places(
    m: Map<Seq<char>, Track>,
    cfg: PersonalZoneConfig,
    window: nat,
    names: Set<Seq<char>>,
)
    requires
        m.dom().finite(),
        forall|name: Seq<char>| #[trigger]
            names.contains(name) ==> frequent(m, cfg, window, name),
    ensures
        names.finite(),
        names.len() <= cfg.frequency_top_n,
{
    let n = within(cfg.frequency_window_days, window);
    assert(names.subset_of(m.dom()));
    vstd::set_lib::lemma_len_subset(names, m.dom());
    lemma_places(m, n, names, cfg.frequency_top_n as nat);
}

proof fn lemma_places(m: Map<Seq<char>, Track>, n: nat, names: Set<Seq<char>>, places: nat)
    requires
        m.dom().finite(),
        names.finite(),
        names.subset_of(m.dom()),
        forall|name: Seq<char>| #[trigger]
            names.contains(name) ==> frequency_rank(m, n, name) < places,
    ensures
        names.len() <= places,
    decreases places,
{
    if places == 0 {
        if names.len() > 0 {
            assert(names.contains(names.choose()));
        }
    } else {
        let last = (places - 1) as nat;
        if exists|name: Seq<char>| #[trigger]
            names.contains(name) && frequency_rank(m, n, name) == last {
            let name = choose|name: Seq<char>| #[trigger]
                names.contains(name) && frequency_rank(m, n, name) == last;
            let rest = names.remove(name);
            assert forall|other: Seq<char>| #[trigger]
                rest.contains(other) implies frequency_rank(m, n, other) < last by {
                assert(names.contains(other));
                lemma_ranks_differ(m, n, name, other);
            }
            lemma_places(m, n, rest, last);
        } else {
            lemma_places(m, n, names, last);
        }
    }
}

proof fn lemma_ranks_differ(m: Map<Seq<char>, Track>, n: nat, a: Seq<char>, b: Seq<char>)
    requires
        m.dom().finite(),
        m.contains_key(a),
        m.contains_key(b),
        a != b,
    ensures
        frequency_rank(m, n, a) != frequency_rank(m, n, b),
{
    text::lemma_text_order_total(a, b);
    if ahead(m, n, a, b) {
        lemma_rank_grows(m, n, a, b);
    } else {
        lemma_rank_grows(m, n, b, a);
    }
}

proof fn lemma_rank_grows(m: Map<Seq<char>, Track>, n: nat, a: Seq<char>, b: Seq<char>)
    requires
        m.dom().finite(),
        m.contains_key(a),
        ahead(m, n, a, b),
    ensures
        frequency_rank(m, n, a) < frequency_rank(m, n, b),
{
    let before_a = m.dom().filter(|other: Seq<char>| ahead(m, n, other, a));
    let before_b = m.dom().filter(|other: Seq<char>| ahead(m, n, other, b));
    text::lemma_text_order_strict(a, a);
    assert forall|other: Seq<char>| before_a.insert(a).contains(other) implies
        before_b.contains(other) by {
        if other != a && visits_last(m[other].counts, n) == visits_last(m[b].counts, n) {
            text::lemma_text_order_transitive(other, a, b);
        }
    }
    vstd::set_lib::lemma_len_subset(before_a.insert(a), before_b);
}

/// What is written to disk stands for the same hosts with the same counts when
/// it is read back with rings of the same length.
pub proof fn law_a_snapshot_keeps_the_counts(
    domains: Seq<(Seq<char>, Seq<u16>)>,
    m: Map<Seq<char>, Track>,
    today: nat,
    window: nat,
)
    requires
        stores(domains, m),
        forall|name: Seq<char>| #[trigger] m.contains_key(name) ==> m[name].counts.len() == window,
    ensures
        restored(domains, today, window).dom() == m.dom(),
        forall|name: Seq<char>| #[trigger]
            m.contains_key(name) ==> restored(domains, today, window)[name].counts
                == m[name].counts,
{
    let back = restored(domains, today, window);
    assert(domains.take(domains.len() as int) =~= domains);
    lemma_restored(domains, m, today, window, domains.len() as int);
    assert forall|name: Seq<char>| #[trigger] back.contains_key(name) <==> m.contains_key(name) by {
        if m.contains_key(name) {
            let i = choose|i: int| 0 <= i < domains.len() && (#[trigger] domains[i]).0 == name;
            assert(back.contains_key(domains[i].0));
        }
    }
    assert(back.dom() =~= m.dom());
    assert forall|name: Seq<char>| #[trigger] m.contains_key(name) implies back[name].counts
        == m[name].counts by {
        let i = choose|i: int| 0 <= i < domains.len() && (#[trigger] domains[i]).0 == name;
        assert(back[domains[i].0].counts == domains[i].1);
    }
}

/// The first `n` entries of a stored list, read back.
proof fn lemma_restored(
    domains: Seq<(Seq<char>, Seq<u16>)>,
    m: Map<Seq<char>, Track>,
    today: nat,
    window: nat,
    n: int,
)
    requires
        stores(domains, m),
        forall|name: Seq<char>| #[trigger] m.contains_key(name) ==> m[name].counts.len() == window,
        0 <= n <= domains.len(),
    ensures
        forall|name: Seq<char>| #[trigger]
            restored(domains.take(n), today, window).contains_key(name) ==> m.contains_key(name),
        forall|i: int|
            0 <= i < n ==> restored(domains.take(n), today, window).contains_key(
                (#[trigger] domains[i]).0,
            ) && restored(domains.take(n), today, window)[domains[i].0].counts == domains[i].1,
    decreases n,
{
    if n > 0 {
        lemma_restored(domains, m, today, window, n - 1);
        let last = domains[n - 1];
        assert(domains.take(n).drop_last() =~= domains.take(n - 1));
        assert(m.contains_key(last.0));
        assert(resized(last.1, window) =~= last.1);
        assert forall|i: int| 0 <= i < n implies restored(
            domains.take(n),
            today,
            window,
        ).contains_key((#[trigger] domains[i]).0) && restored(
            domains.take(n),
            today,
            window,
        )[domains[i].0].counts == domains[i].1 by {
            if i < n - 1 {
                text::lemma_text_order_strict(domains[i].0, last.0);
            }
        }
        assert forall|name: Seq<char>| #[trigger]
            restored(domains.take(n), today, window).contains_key(name) implies m.contains_key(
            name,
        ) by {
            if name != last.0 {
                assert(restored(domains.take(n - 1), today, window).contains_key(name));
            }
        }
    } else {
        assert(restored(domains.take(n), today, window) =~= Map::empty());
    }
}

/// The days with a visit from place `from` of a ring on are as many as the places
/// that hold a count.
proof fn lemma_visited_days(counts: Seq<u16>, from: int)
    requires
        0 <= from <= counts.len(),
    ensures
        visited_days(counts.skip(from)) == vstd::set_lib::set_int_range(
            from,
            counts.len() as int,
        ).filter(|i: int| counts[i] != 0).len(),
        visited_days(counts.skip(from)) <= counts.len() - from,
    decreases counts.len() - from,
{
    let here = vstd::set_lib::set_int_range(from, counts.len() as int).filter(
        |i: int| counts[i] != 0,
    );
    vstd::set_lib::lemma_int_range(from, counts.len() as int);
    if from < counts.len() {
        lemma_visited_days(counts, from + 1);
        let rest = vstd::set_lib::set_int_range(from + 1, counts.len() as int).filter(
            |i: int| counts[i] != 0,
        );
        vstd::set_lib::lemma_int_range(from + 1, counts.len() as int);
        assert(counts.skip(from).skip(1) =~= counts.skip(from + 1));
        assert(counts.skip(from)[0] == counts[from]);
        if counts[from] != 0 {
            assert(here =~= rest.insert(from));
        } else {
            assert(here =~= rest);
        }
    } else {
        assert(here =~= Set::empty());
    }
}

proof fn lemma_total_push(counts: Seq<u16>, last: u16)
    ensures
        total(counts.push(last)) == total(counts) + last,
    decreases counts.len(),
{
    if counts.len() == 0 {
        assert(total(counts.push(last).skip(1)) == 0);
    } else {
        lemma_total_push(counts.skip(1), last);
        assert(counts.push(last).skip(1) =~= counts.skip(1).push(last));
    }
}

/// The visits of a ring, added up one day after the other.
proof fn lemma_total(counts: Seq<u16>)
    ensures
        total(counts) == counts.fold_left(0int, |sum: int, day: u16| sum + day),
    decreases counts.len(),
{
    if counts.len() > 0 {
        lemma_total(counts.drop_last());
        lemma_total_push(counts.drop_last(), counts.last());
        assert(counts.drop_last().push(counts.last()) =~= counts);
    }
}

proof fn lemma_visits_last(counts: Seq<u16>, days: u32)
    ensures
        ({
            let window = counts.len();
            let from: int = if days < window {
                window - days
            } else {
                0
            };
            let sum = counts.skip(from).fold_left(0int, |sum: int, day: u16| sum + day);
            visits_last(counts, within(days, window)) == if sum < u32::MAX {
                sum
            } else {
                u32::MAX as int
            }
        }),
{
    let window = counts.len();
    let from: int = if days < window {
        window - days
    } else {
        0
    };
    assert(last_days(counts, within(days, window)) =~= counts.skip(from));
    lemma_total(counts.skip(from));
}

/// A host belongs to the zone if and only if it is tracked and passes one of two
/// tests. By regularity: of the last days that the regularity window has, so many
/// as are asked for have a visit; older days do not count. By frequency: it has a
/// visit within the frequency window, and fewer hosts than there are places come
/// before it, by more visits within that window or by as many and an earlier
/// name. `visits` stands for the visits of each host within that window, added up
/// day by day as far as 32 bits go.
pub proof fn law_who_belongs_to_the_zone(
    m: Map<Seq<char>, Track>,
    cfg: PersonalZoneConfig,
    window: nat,
    visits: spec_fn(Seq<char>) -> int,
    name: Seq<char>,
)
    requires
        forall|host: Seq<char>| #[trigger] m.contains_key(host) ==> m[host].counts.len() == window,
        forall|host: Seq<char>| #[trigger]
            m.contains_key(host) ==> ({
                let from: int = if cfg.frequency_window_days < window {
                    window - cfg.frequency_window_days
                } else {
                    0
                };
                let sum = m[host].counts.skip(from).fold_left(
                    0int,
                    |sum: int, day: u16| sum + day,
                );
                visits(host) == if sum < u32::MAX {
                    sum
                } else {
                    u32::MAX as int
                }
            }),
    ensures
        qualifies(m, cfg, window, name) <==> m.contains_key(name) && (
        vstd::set_lib::set_int_range(0, window as int).filter(
            |i: int| window - cfg.regularity_window_days <= i && m[name].counts[i] != 0,
        ).len() >= cfg.regularity_min_days || (visits(name) > 0 && m.dom().filter(
            |other: Seq<char>|
                visits(other) > visits(name) || (visits(other) == visits(name)
                    && text::text_before(other, name)),
        ).len() < cfg.frequency_top_n)),
        regular(m, cfg, window, name) <==> m.contains_key(name) && vstd::set_lib::set_int_range(
            0,
            window as int,
        ).filter(
            |i: int| window - cfg.regularity_window_days <= i && m[name].counts[i] != 0,
        ).len() >= cfg.regularity_min_days,
        frequent(m, cfg, window, name) <==> m.contains_key(name) && visits(name) > 0
            && m.dom().filter(
            |other: Seq<char>|
                visits(other) > visits(name) || (visits(other) == visits(name)
                    && text::text_before(other, name)),
        ).len() < cfg.frequency_top_n,
{
    if m.contains_key(name) {
        let counts = m[name].counts;
        let n = within(cfg.frequency_window_days, window);
        assert forall|host: Seq<char>| #[trigger] m.contains_key(host) implies visits(host)
            == visits_last(m[host].counts, n) by {
            lemma_visits_last(m[host].counts, cfg.frequency_window_days);
        }
        let before = m.dom().filter(
            |other: Seq<char>|
                visits(other) > visits(name) || (visits(other) == visits(name)
                    && text::text_before(other, name)),
        );
        assert(before =~= m.dom().filter(|other: Seq<char>| ahead(m, n, other, name)));
        let from: int = if cfg.regularity_window_days < window {
            window - cfg.regularity_window_days
        } else {
            0
        };
        assert(last_days(counts, within(cfg.regularity_window_days, window)) =~= counts.skip(from));
        lemma_visited_days(counts, from);
        assert(vstd::set_lib::set_int_range(from, window as int).filter(|i: int| counts[i] != 0)
            =~= vstd::set_lib::set_int_range(0, window as int).filter(
            |i: int| window - cfg.regularity_window_days <= i && m[name].counts[i] != 0,
        ));
    }
}

/// Days before the last ones that the regularity window has do not count: where
/// two stores agree on those of a host, and nobody can qualify by frequency, it
/// belongs to both zones or to neither.
pub proof fn law_only_the_last_days_make_a_host_regular(
    m: Map<Seq<char>, Track>,
    other: Map<Seq<char>, Track>,
    cfg: PersonalZoneConfig,
    window: nat,
    name: Seq<char>,
)
    requires
        forall|host: Seq<char>| #[trigger] m.contains_key(host) ==> m[host].counts.len() == window,
        forall|host: Seq<char>| #[trigger]
            other.contains_key(host) ==> other[host].counts.len() == window,
        m.contains_key(name),
        other.contains_key(name),
        forall|i: int|
            0 <= i < window && window - cfg.regularity_window_days <= i ==> #[trigger]
            m[name].counts[i] == other[name].counts[i],
    ensures
        regular(m, cfg, window, name) == regular(other, cfg, window, name),
        cfg.frequency_top_n == 0 ==> qualifies(m, cfg, window, name) == qualifies(
            other,
            cfg,
            window,
            name,
        ),
{
    let n = within(cfg.regularity_window_days, window);
    assert(last_days(m[name].counts, n) =~= last_days(other[name].counts, n));
}

/// A host without a visit on the last days that a window has does not qualify by
/// what that window is for. One without a visit in both is not in the zone, where
/// at least one regular day is asked for.
pub proof fn law_a_host_that_was_not_visited_does_not_qualify(
    m: Map<Seq<char>, Track>,
    cfg: PersonalZoneConfig,
    window: nat,
    name: Seq<char>,
)
    requires
        m.contains_key(name) ==> m[name].counts.len() == window,
        cfg.regularity_min_days >= 1,
        forall|i: int|
            0 <= i < window && window - cfg.regularity_window_days <= i ==> #[trigger]
            m[name].counts[i] == 0,
    ensures
        !regular(m, cfg, window, name),
        !frequent(m, cfg, window, name) ==> !qualifies(m, cfg, window, name),
        (forall|i: int|
            0 <= i < window && window - cfg.frequency_window_days <= i ==> #[trigger]
            m[name].counts[i] == 0) ==> !qualifies(m, cfg, window, name),
{
    if m.contains_key(name) {
        let counts = m[name].counts;
        let from: int = if cfg.regularity_window_days < window {
            window - cfg.regularity_window_days
        } else {
            0
        };
        assert(last_days(counts, within(cfg.regularity_window_days, window)) =~= counts.skip(from));
        lemma_visited_days(counts, from);
        assert(vstd::set_lib::set_int_range(from, window as int).filter(|i: int| counts[i] != 0)
            =~= Set::empty());
        if forall|i: int|
            0 <= i < window && window - cfg.frequency_window_days <= i ==> #[trigger]
            m[name].counts[i] == 0 {
            let n = within(cfg.frequency_window_days, window);
            assert forall|i: int| 0 <= i < last_days(counts, n).len() implies #[trigger] last_days(
                counts,
                n,
            )[i] == 0 by {
                assert(last_days(counts, n)[i] == counts[counts.len() - last_days(counts, n).len()
                    + i]);
            }
            lemma_total_of_nothing(last_days(counts, n));
        }
    }
}

proof fn lemma_total_of_nothing(counts: Seq<u16>)
    requires
        forall|i: int| 0 <= i < counts.len() ==> #[trigger] counts[i] == 0,
    ensures
        total(counts) == 0,
    decreases counts.len(),
{
    if counts.len() > 0 {
        assert forall|i: int| 0 <= i < counts.skip(1).len() implies #[trigger] counts.skip(1)[i]
            == 0 by {
            assert(counts.skip(1)[i] == counts[i + 1]);
        }
        lemma_total_of_nothing(counts.skip(1));
    }
}

/// What a later day makes of the hosts: each count moves back by as many places as
/// days went by, and the new days have no visit. A host is dropped if and only if
/// it has no count left. A day that is not later changes nothing.
pub proof fn law_counts_move_back_day_by_day(
    m: Map<Seq<char>, Track>,
    from: nat,
    to: nat,
    window: nat,
    name: Seq<char>,
)
    requires
        forall|host: Seq<char>| #[trigger] m.contains_key(host) ==> m[host].counts.len() == window,
    ensures
        to <= from ==> rolled(m, from, to, window) == m,
        to > from ==> (rolled(m, from, to, window).contains_key(name) <==> m.contains_key(name)
            && exists|i: int| to - from <= i < window && #[trigger] m[name].counts[i] != 0),
        to > from && rolled(m, from, to, window).contains_key(name) ==> ({
            let now = rolled(m, from, to, window)[name];
            &&& now.counts.len() == window
            &&& now.last_visited == m[name].last_visited
            &&& forall|i: int|
                0 <= i < window ==> #[trigger] now.counts[i] == if i + (to - from) < window {
                    m[name].counts[i + (to - from)]
                } else {
                    0
                }
        }),
{
    if to > from && m.contains_key(name) {
        let days = shift_between(from, to, window);
        let counts = m[name].counts;
        let after = shifted(counts, days);
        assert(after.len() == window);
        if alive(after) {
            let i = choose|i: int| 0 <= i < after.len() && #[trigger] after[i] != 0;
            assert(counts[i + (to - from)] != 0);
        }
        if exists|i: int| to - from <= i < window && #[trigger] m[name].counts[i] != 0 {
            let i = choose|i: int| to - from <= i < window && #[trigger] m[name].counts[i] != 0;
            assert(after[i - (to - from)] == counts[i]);
        }
    }
}

/// A visit adds one to the count of the last day, as far as 16 bits go, and leaves
/// the other days alone; a host that was not tracked has that one visit only. Every
/// other host stays as it is, but that one of those visited longest ago is dropped
/// where there is no room for a new one.
pub proof fn law_a_visit_adds_one(
    m: Map<Seq<char>, Track>,
    host: Seq<char>,
    day: nat,
    window: nat,
    after: Map<Seq<char>, Track>,
)
    requires
        window >= 1,
        m.dom().finite(),
        forall|name: Seq<char>| #[trigger] m.contains_key(name) ==> m[name].counts.len() == window,
        visited(m, host, day, window, after),
    ensures
        after.contains_key(host),
        after[host].last_visited == day,
        after[host].counts.len() == window,
        forall|i: int|
            0 <= i < window - 1 ==> #[trigger] after[host].counts[i] == if m.contains_key(host) {
                m[host].counts[i]
            } else {
                0
            },
        after[host].counts[window - 1] == if !m.contains_key(host) {
            1
        } else if m[host].counts[window - 1] < 65_535 {
            m[host].counts[window - 1] + 1
        } else {
            65_535
        },
        forall|name: Seq<char>| #[trigger]
            after.contains_key(name) && name != host ==> m.contains_key(name) && after[name]
                == m[name],
        m.contains_key(host) || m.dom().len() < 2000 ==> after.dom() == m.dom().insert(host),
        !m.contains_key(host) && m.dom().len() >= 2000 ==> exists|gone: Seq<char>| #[trigger]
            m.contains_key(gone) && after.dom() == m.dom().remove(gone).insert(host) && forall|
                name: Seq<char>,
            | #[trigger]
                m.contains_key(name) ==> m[gone].last_visited <= m[name].last_visited,
        after.dom().len() == if m.contains_key(host) || m.dom().len() >= 2000 {
            m.dom().len()
        } else {
            m.dom().len() + 1
        },
{
    if m.contains_key(host) {
        assert(after.dom() =~= m.dom().insert(host));
    } else if m.dom().len() >= 2000 {
        let fresh = Track { counts: first_visit(window), last_visited: day };
        let gone = choose|gone: Seq<char>| #[trigger]
            least_recent(m, gone) && after == m.remove(gone).insert(host, fresh);
        assert(m.contains_key(gone));
        assert(after.dom() =~= m.dom().remove(gone).insert(host));
    } else {
        assert(after.dom() =~= m.dom().insert(host));
    }
}

/// What a stored list stands for: the hosts that occur in it, each with the last
/// entry under its name. A ring is aligned by its last day: longer ones lose their
/// oldest days, and shorter ones have no visit before them. The day of the last
/// visit is that of the last count that is not zero, no earlier than the epoch;
/// the day of the list where there is none.
pub proof fn law_how_a_stored_list_is_read(
    before: Seq<(Seq<char>, Seq<u16>)>,
    name: Seq<char>,
    counts: Seq<u16>,
    after: Seq<(Seq<char>, Seq<u16>)>,
    today: nat,
    window: nat,
)
    requires
        forall|i: int| 0 <= i < after.len() ==> (#[trigger] after[i]).0 != name,
    ensures
        !restored(after, today, window).contains_key(name),
        ({
            let all = restored(before + seq![(name, counts)] + after, today, window);
            &&& all.contains_key(name)
            &&& all[name].counts.len() == window
            &&& forall|ago: int|
                0 <= ago < window ==> #[trigger] all[name].counts[window - 1 - ago] == if ago
                    < counts.len() {
                    counts[counts.len() - 1 - ago]
                } else {
                    0
                }
            &&& forall|ago: int|
                0 <= ago < window && #[trigger] all[name].counts[window - 1 - ago] != 0 && (forall|
                    later: int,
                |
                    0 <= later < ago ==> #[trigger] all[name].counts[window - 1 - later] == 0)
                    ==> all[name].last_visited == if ago <= today {
                    today - ago
                } else {
                    0
                }
            &&& (forall|i: int| 0 <= i < window ==> #[trigger] all[name].counts[i] == 0)
                ==> all[name].last_visited == today
        }),
    decreases after.len(),
{
    if after.len() == 0 {
        let all = before + seq![(name, counts)] + after;
        assert(all.last() == (name, counts));
        let ring = resized(counts, window);
        assert(restored(all, today, window)[name].counts == ring);
        assert forall|ago: int|
            0 <= ago < window && #[trigger] ring[window - 1 - ago] != 0 && (forall|later: int|
                0 <= later < ago ==> #[trigger] ring[window - 1 - later] == 0) implies
            days_since_visit(ring) == Some(ago as nat) by {
            lemma_days_since_visit(ring, ago);
        }
        if forall|i: int| 0 <= i < window ==> #[trigger] ring[i] == 0 {
            lemma_never_visited(ring);
        }
    } else {
        let fewer = after.drop_last();
        law_how_a_stored_list_is_read(before, name, counts, fewer, today, window);
        let all = before + seq![(name, counts)] + after;
        assert(all.drop_last() =~= before + seq![(name, counts)] + fewer);
        assert(all.last() == after.last());
        assert(after[after.len() - 1].0 != name);
    }
}

proof fn lemma_days_since_visit(ring: Seq<u16>, ago: int)
    requires
        0 <= ago < ring.len(),
        ring[ring.len() - 1 - ago] != 0,
        forall|later: int| 0 <= later < ago ==> #[trigger] ring[ring.len() - 1 - later] == 0,
    ensures
        days_since_visit(ring) == Some(ago as nat),
    decreases ring.len(),
{
    if ago > 0 {
        let rest = ring.drop_last();
        assert(ring[ring.len() - 1 - 0] == 0);
        assert forall|later: int| 0 <= later < ago - 1 implies #[trigger] rest[rest.len() - 1
            - later] == 0 by {
            assert(rest[rest.len() - 1 - later] == ring[ring.len() - 1 - (later + 1)]);
        }
        lemma_days_since_visit(rest, ago - 1);
    } else {
        assert(ring[ring.len() - 1 - 0] == ring.last());
    }
}

proof fn lemma_never_visited(ring: Seq<u16>)
    requires
        forall|i: int| 0 <= i < ring.len() ==> #[trigger] ring[i] == 0,
    ensures
        days_since_visit(ring) is None,
    decreases ring.len(),
{
    if ring.len() > 0 {
        assert(ring.last() == 0);
        assert forall|i: int| 0 <= i < ring.drop_last().len() implies #[trigger] ring.drop_last()[i]
            == 0 by {
            assert(ring.drop_last()[i] == ring[i]);
        }
        lemma_never_visited(ring.drop_last());
    }
}

/// What the cap leaves: hosts as they were, all of them up to 2000, and where there
/// are more, 2000 of them, so that no host that is gone was visited later than one
/// that stays.
pub proof fn law_the_cap_keeps_the_most_recent(
    m: Map<Seq<char>, Track>,
    kept: Map<Seq<char>, Track>,
)
    requires
        m.dom().finite(),
    ensures
        capped(m, kept) <==> (forall|name: Seq<char>| #[trigger]
            kept.contains_key(name) ==> m.contains_key(name) && kept[name] == m[name])
            && kept.dom().finite() && (m.dom().len() <= 2000 ==> kept.dom().len() == m.dom().len())
            && (m.dom().len() > 2000 ==> kept.dom().len() == 2000) && (forall|
            gone: Seq<char>,
            stays: Seq<char>,
        |
            m.contains_key(gone) && !kept.contains_key(gone) && kept.contains_key(stays)
                ==> #[trigger] m[gone].last_visited <= #[trigger] m[stays].last_visited),
        capped(m, kept) && m.dom().len() <= 2000 ==> kept == m,
{
    if capped(m, kept) && m.dom().len() <= 2000 {
        assert(kept.dom().subset_of(m.dom()));
        vstd::set_lib::lemma_subset_equality(kept.dom(), m.dom());
        assert(kept =~= m);
    }
}

/// What is written to disk has every host once, under its name and with its
/// counts, in the order of the names, and nothing else.
pub proof fn law_what_is_written_of_the_hosts(
    domains: Seq<(Seq<char>, Seq<u16>)>,
    m: Map<Seq<char>, Track>,
)
    ensures
        stores(domains, m) <==> (forall|i: int, j: int|
            0 <= i < j < domains.len() ==> text::text_before(
                (#[trigger] domains[i]).0,
                (#[trigger] domains[j]).0,
            )) && (forall|name: Seq<char>, counts: Seq<u16>| #[trigger]
            domains.contains((name, counts)) <==> m.contains_key(name) && m[name].counts == counts),
{
    if stores(domains, m) {
        assert forall|name: Seq<char>, counts: Seq<u16>| #[trigger]
            domains.contains((name, counts)) <==> m.contains_key(name) && m[name].counts
                == counts by {
            if domains.contains((name, counts)) {
                let i = choose|i: int| 0 <= i < domains.len() && domains[i] == (name, counts);
                assert(domains[i].0 == name);
            }
            if m.contains_key(name) && m[name].counts == counts {
                let i = choose|i: int| 0 <= i < domains.len() && (#[trigger] domains[i]).0 == name;
                assert(domains[i] == (name, counts));
            }
        }
    }
    if (forall|i: int, j: int|
        0 <= i < j < domains.len() ==> text::text_before(
            (#[trigger] domains[i]).0,
            (#[trigger] domains[j]).0,
        )) && (forall|name: Seq<char>, counts: Seq<u16>| #[trigger]
        domains.contains((name, counts)) <==> m.contains_key(name) && m[name].counts == counts) {
        assert forall|i: int| 0 <= i < domains.len() implies m.contains_key(
            (#[trigger] domains[i]).0,
        ) && m[domains[i].0].counts == domains[i].1 by {
            assert(domains.contains((domains[i].0, domains[i].1)));
        }
        assert forall|name: Seq<char>| #[trigger] m.contains_key(name) implies exists|i: int|
            0 <= i < domains.len() && (#[trigger] domains[i]).0 == name by {
            assert(domains.contains((name, m[name].counts)));
            let i = choose|i: int| 0 <= i < domains.len() && domains[i] == (name, m[name].counts);
            assert(domains[i].0 == name);
        }
    }
}

/// A stored list is read entry by entry, each by its name and its counts.
pub proof fn law_entries_are_read_in_order(domains: Seq<(String, Vec<u16>)>, i: int)
    ensures
        stored(domains).len() == domains.len(),
        0 <= i < domains.len() ==> stored(domains)[i].0 == domains[i].0@,
        0 <= i < domains.len() ==> stored(domains)[i].1 == domains[i].1@,
{
}

/// The rings are as long as the longer of the two windows, and never empty.
pub proof fn law_rings_are_long_enough(cfg: PersonalZoneConfig)
    ensures
        window_of(cfg) >= 1,
        window_of(cfg) >= cfg.frequency_window_days,
        window_of(cfg) >= cfg.regularity_window_days,
        window_of(cfg) == 1 || window_of(cfg) == cfg.frequency_window_days || window_of(cfg)
            == cfg.regularity_window_days,
{
}

/// A day has 86400 seconds; what comes after the last day that 32 bits can hold
/// falls on it.
pub proof fn law_a_day_has_so_many_seconds(seconds: u64)
    ensures
        day_of(seconds) * 86_400 <= seconds,
        day_of(seconds) == u32::MAX || seconds < (day_of(seconds) + 1) * 86_400,
{
    assert(seconds / DAY_SECONDS * 86_400 <= seconds < (seconds / DAY_SECONDS + 1) * 86_400)
        by (nonlinear_arith)
        requires
            DAY_SECONDS == 86_400,
    ;
}

} // verus!
