//! The log of answered queries: what is kept of each, and how many.
use vstd::prelude::*;
use crate::text;

verus! {

/// How a query was answered.
#[derive(Debug, Clone, Copy, PartialEq, Eq, Structural)]
pub enum Decision {
    /// With an answer.
    Allowed,
    /// With a block.
    Blocked,
    /// Not at all.
    Failed,
}

/// What decided on the answer.
#[derive(Debug, Clone, Copy, PartialEq, Eq, Structural)]
pub enum DecisionSource {
    /// The allowlist.
    Allowlist,
    /// The blocklist.
    Blocklist,
    /// An earlier verdict.
    Cache,
    /// The voters.
    Quorum,
    /// The country of an address.
    Geoip,
    /// The baseline resolver, because no voter could be reached.
    BaselineFallback,
}

/// What one voter said.
#[derive(Debug, Clone, Copy, PartialEq, Eq, Structural)]
pub enum VoterVerdict {
    /// To block.
    Block,
    /// To allow.
    Allow,
    /// Nothing in time.
    Timeout,
    /// An error.
    Error,
    /// Nothing, because it was no longer needed.
    Canceled,
    /// Nothing, because it is switched off.
    Disabled,
}

/// One voter's part in an answer.
#[derive(Debug)]
pub struct VoterRecord {
    /// The voter.
    pub provider_id: String,
    /// What it said.
    pub verdict: VoterVerdict,
    /// How many addresses it gave, if it allowed.
    pub allow_ip_count: Option<u32>,
    /// The kind of its error, if it failed.
    pub error_message: Option<&'static str>,
}

/// What a [`VoterRecord`] says.
#[verifier::ext_equal]
pub struct Vote {
    /// The voter.
    pub provider_id: Seq<char>,
    /// What it said.
    pub verdict: VoterVerdict,
    /// How many addresses it gave.
    pub allow_ip_count: Option<u32>,
    /// The kind of its error.
    pub error_message: Option<Seq<char>>,
}

impl View for VoterRecord {
    type V = Vote;

    open spec fn view(&self) -> Vote {
        Vote {
            provider_id: self.provider_id@,
            verdict: self.verdict,
            allow_ip_count: self.allow_ip_count,
            error_message: text::opt_str(self.error_message),
        }
    }
}

impl Clone for VoterRecord {
    fn clone(&self) -> (copy: Self)
        ensures
            copy == *self,
    {
        VoterRecord {
            provider_id: self.provider_id.clone(),
            verdict: self.verdict,
            allow_ip_count: self.allow_ip_count,
            error_message: self.error_message,
        }
    }
}

/// What is kept of one answered query.
#[derive(Debug)]
pub struct LogEntry {
    /// When it was answered, in nanoseconds since the Unix epoch.
    pub timestamp: i128,
    /// The name that was asked for, in canonical form.
    pub domain: String,
    /// The record type that was asked for.
    pub qtype: u16,
    /// How it was answered.
    pub decision: Decision,
    /// What decided on that.
    pub decision_source: DecisionSource,
    /// Each voter's part.
    pub voters: Vec<VoterRecord>,
    /// The blocked country, if one decided.
    pub geoip_country: Option<String>,
    /// The country of the first address of the answer.
    pub resolved_ip_country: Option<String>,
    /// How long it took, in milliseconds.
    pub latency_ms: u64,
}

/// What a [`LogEntry`] says.
#[verifier::ext_equal]
pub struct LogRecord {
    /// When the query was answered.
    pub timestamp: int,
    /// The name.
    pub domain: Seq<char>,
    /// The record type.
    pub qtype: u16,
    /// How it was answered.
    pub decision: Decision,
    /// What decided on that.
    pub decision_source: DecisionSource,
    /// Each voter's part.
    pub voters: Seq<Vote>,
    /// The blocked country.
    pub geoip_country: Option<Seq<char>>,
    /// The country of the answer.
    pub resolved_ip_country: Option<Seq<char>>,
    /// How long it took.
    pub latency_ms: u64,
}

/// What a list of voters says.
pub open spec fn votes(voters: Seq<VoterRecord>) -> Seq<Vote> {
    voters.map_values(|v: VoterRecord| v@)
}

/// What a list of entries says.
pub open spec fn records(entries: Seq<LogEntry>) -> Seq<LogRecord> {
    entries.map_values(|e: LogEntry| e@)
}

impl View for LogEntry {
    type V = LogRecord;

    open spec fn view(&self) -> LogRecord {
        LogRecord {
            timestamp: self.timestamp as int,
            domain: self.domain@,
            qtype: self.qtype,
            decision: self.decision,
            decision_source: self.decision_source,
            voters: votes(self.voters@),
            geoip_country: text::opt_text(self.geoip_country),
            resolved_ip_country: text::opt_text(self.resolved_ip_country),
            latency_ms: self.latency_ms,
        }
    }
}

fn copy_voters(voters: &[VoterRecord]) -> (copy: Vec<VoterRecord>)
    ensures
        copy@ == voters@,
{
    let mut copy: Vec<VoterRecord> = Vec::new();
    let mut i: usize = 0;
    while i < voters.len()
        invariant
            i <= voters@.len(),
            copy@ == voters@.take(i as int),
        decreases voters@.len() - i,
    {
        copy.push(voters[i].clone());
        assert(voters@.take(i + 1) =~= voters@.take(i as int).push(voters@[i as int]));
        i = i + 1;
    }
    assert(voters@.take(i as int) =~= voters@);
    copy
}

impl Clone for LogEntry {
    fn clone(&self) -> (copy: Self)
        ensures
            copy@ == self@,
    {
        LogEntry {
            timestamp: self.timestamp,
            domain: self.domain.clone(),
            qtype: self.qtype,
            decision: self.decision,
            decision_source: self.decision_source,
            voters: copy_voters(self.voters.as_slice()),
            geoip_country: text::copy_opt(&self.geoip_country),
            resolved_ip_country: text::copy_opt(&self.resolved_ip_country),
            latency_ms: self.latency_ms,
        }
    }
}

/// The most entries that the log holds.
pub const DEFAULT_MAX_ENTRIES: usize = 1000;

/// The age in nanoseconds past which an entry is no longer shown: a day.
pub const MAX_AGE_NANOS: i128 = 86_400_000_000_000;

/// The last `n` of a sequence, or all of it where it is shorter.
pub open spec fn newest<T>(s: Seq<T>, n: nat) -> Seq<T> {
    if s.len() > n {
        s.skip(s.len() - n)
    } else {
        s
    }
}

/// Whether an entry is young enough to be shown at `now`.
pub open spec fn recent(now: int) -> spec_fn(LogRecord) -> bool {
    |record: LogRecord| now - record.timestamp <= MAX_AGE_NANOS
}

/// The log, oldest entry first.
pub struct QueryLog {
    entries: Vec<LogEntry>,
}

impl View for QueryLog {
    type V = Seq<LogRecord>;

    closed spec fn view(&self) -> Seq<LogRecord> {
        records(self.entries@)
    }
}

impl Default for QueryLog {
    /// An empty log.
    fn default() -> (log: Self)
        ensures
            log@ == Seq::<LogRecord>::empty(),
            log.wf(),
    {
        let log = QueryLog { entries: Vec::new() };
        assert(log@ =~= Seq::<LogRecord>::empty());
        log
    }
}

impl QueryLog {
    /// A log never holds more than [`DEFAULT_MAX_ENTRIES`].
    pub open spec fn wf(&self) -> bool {
        self@.len() <= DEFAULT_MAX_ENTRIES
    }

    /// Adds an entry. Where the log is full, the oldest one makes room.
    pub fn push(&mut self, entry: LogEntry)
        requires
            old(self).wf(),
        ensures
            final(self)@ == newest(old(self)@.push(entry@), DEFAULT_MAX_ENTRIES as nat),
            final(self).wf(),
    {
        let ghost before = self.entries@;
        if self.entries.len() >= DEFAULT_MAX_ENTRIES {
            self.entries.remove(0);
        }
        self.entries.push(entry);
        assert(self@ =~= newest(records(before).push(entry@), DEFAULT_MAX_ENTRIES as nat));
    }

    /// Forgets everything.
    pub fn clear(&mut self)
        ensures
            final(self)@ == Seq::<LogRecord>::empty(),
            final(self).wf(),
    {
        self.entries.clear();
        assert(self@ =~= Seq::<LogRecord>::empty());
    }

    /// A copy of the entries that are young enough at `now`, oldest first.
    pub fn snapshot(&self, now: i128) -> (entries: Vec<LogEntry>)
        ensures
            records(entries@) == self@.filter(recent(now as int)),
    {
        recent_entries(self.entries.as_slice(), now)
    }

    /// A copy of the entries that are young enough at `now` and searched for,
    /// oldest first.
    pub fn search(&self, now: i128, filter: &LogFilter) -> (entries: Vec<LogEntry>)
        ensures
            records(entries@) == self@.filter(recent(now as int)).filter(wanted(filter@)),
    {
        matching_entries(self.snapshot(now), filter)
    }

    /// Takes over the entries of an earlier run: those that are young enough
    /// at `now`, and of these the newest that fit.
    pub fn restore(&mut self, entries: Vec<LogEntry>, now: i128)
        ensures
            final(self)@ == newest(
                records(entries@).filter(recent(now as int)),
                DEFAULT_MAX_ENTRIES as nat,
            ),
            final(self).wf(),
    {
        let kept = recent_entries(entries.as_slice(), now);
        self.entries = newest_entries(kept, DEFAULT_MAX_ENTRIES);
    }
}

/// What the log is searched for. Where something is not given, it does not
/// matter.
#[derive(Debug, Clone, Copy)]
pub struct LogFilter<'a> {
    /// A text that the name contains.
    pub domain_contains: Option<&'a str>,
    /// How the query was answered.
    pub decision: Option<Decision>,
    /// A voter that had a part in it.
    pub voter: Option<&'a str>,
}

/// What a [`LogFilter`] says.
pub struct Facets {
    /// A text that the name contains.
    pub domain_contains: Option<Seq<char>>,
    /// How the query was answered.
    pub decision: Option<Decision>,
    /// A voter that had a part in it.
    pub voter: Option<Seq<char>>,
}

impl<'a> View for LogFilter<'a> {
    type V = Facets;

    open spec fn view(&self) -> Facets {
        Facets {
            domain_contains: text::opt_str(self.domain_contains),
            decision: self.decision,
            voter: text::opt_str(self.voter),
        }
    }
}

/// Whether a voter had a part in an answer.
pub open spec fn voted(record: LogRecord, voter: Seq<char>) -> bool {
    exists|i: int| 0 <= i < record.voters.len() && (#[trigger] record.voters[i]).provider_id == voter
}

/// Whether a record is searched for.
pub open spec fn wanted(facets: Facets) -> spec_fn(LogRecord) -> bool {
    |record: LogRecord|
        {
            &&& facets.domain_contains matches Some(part) ==> text::contains_text(
                record.domain,
                part,
            )
            &&& facets.decision matches Some(decision) ==> record.decision == decision
            &&& facets.voter matches Some(voter) ==> voted(record, voter)
        }
}

fn has_voter(voters: &[VoterRecord], voter: &str) -> (yes: bool)
    ensures
        yes == exists|i: int|
            0 <= i < votes(voters@).len() && (#[trigger] votes(voters@)[i]).provider_id == voter@,
{
    let mut i: usize = 0;
    while i < voters.len()
        invariant
            i <= voters@.len(),
            forall|j: int| 0 <= j < i ==> (#[trigger] voters@[j]).provider_id@ != voter@,
        decreases voters@.len() - i,
    {
        if text::same_text(voters[i].provider_id.as_str(), voter) {
            assert(votes(voters@)[i as int].provider_id == voter@);
            return true;
        }
        i = i + 1;
    }
    false
}

impl<'a> LogFilter<'a> {
    /// Whether an entry is searched for.
    pub fn matches(&self, entry: &LogEntry) -> (yes: bool)
        ensures
            yes == wanted(self@)(entry@),
    {
        match self.domain_contains {
            Some(part) => {
                let domain = text::chars_of(entry.domain.as_str());
                if !text::contains_chars(domain.as_slice(), text::chars_of(part).as_slice()) {
                    return false;
                }
            },
            None => {},
        }
        match self.decision {
            Some(decision) => {
                if entry.decision != decision {
                    return false;
                }
            },
            None => {},
        }
        match self.voter {
            Some(voter) => has_voter(entry.voters.as_slice(), voter),
            None => true,
        }
    }
}

fn matching_entries(entries: Vec<LogEntry>, filter: &LogFilter) -> (kept: Vec<LogEntry>)
    ensures
        records(kept@) == records(entries@).filter(wanted(filter@)),
{
    let mut kept: Vec<LogEntry> = Vec::new();
    let mut i: usize = 0;
    proof {
        reveal(Seq::filter);
        assert(records(entries@).take(0) =~= Seq::<LogRecord>::empty());
        assert(records(kept@) =~= Seq::<LogRecord>::empty());
    }
    while i < entries.len()
        invariant
            i <= entries@.len(),
            records(kept@) == records(entries@).take(i as int).filter(wanted(filter@)),
        decreases entries@.len() - i,
    {
        proof {
            let all = records(entries@);
            assert(all.take(i + 1) =~= all.take(i as int).push(all[i as int]));
            all.take(i as int).lemma_filter_push(all[i as int], wanted(filter@));
        }
        if filter.matches(&entries[i]) {
            let ghost before = kept@;
            kept.push(entries[i].clone());
            assert(records(kept@) =~= records(before).push(entries@[i as int]@));
        }
        i = i + 1;
    }
    assert(records(entries@).take(i as int) =~= records(entries@));
    kept
}

fn recent_entries(entries: &[LogEntry], now: i128) -> (kept: Vec<LogEntry>)
    ensures
        records(kept@) == records(entries@).filter(recent(now as int)),
{
    let oldest: Option<i128> = now.checked_sub(MAX_AGE_NANOS);
    let mut kept: Vec<LogEntry> = Vec::new();
    let mut i: usize = 0;
    proof {
        reveal(Seq::filter);
        assert(records(entries@).take(0) =~= Seq::<LogRecord>::empty());
        assert(records(kept@) =~= Seq::<LogRecord>::empty());
    }
    while i < entries.len()
        invariant
            i <= entries@.len(),
            oldest == (if now - MAX_AGE_NANOS < i128::MIN {
                None
            } else {
                Some((now - MAX_AGE_NANOS) as i128)
            }),
            records(kept@) == records(entries@).take(i as int).filter(recent(now as int)),
        decreases entries@.len() - i,
    {
        let young = match oldest {
            Some(oldest) => entries[i].timestamp >= oldest,
            None => true,
        };
        proof {
            let all = records(entries@);
            assert(all.take(i + 1) =~= all.take(i as int).push(all[i as int]));
            all.take(i as int).lemma_filter_push(all[i as int], recent(now as int));
        }
        if young {
            let ghost before = kept@;
            kept.push(entries[i].clone());
            assert(records(kept@) =~= records(before).push(entries@[i as int]@));
        }
        i = i + 1;
    }
    assert(records(entries@).take(i as int) =~= records(entries@));
    kept
}

/// The last `limit` entries of a list, or all of them where there are fewer.
pub fn newest_entries(entries: Vec<LogEntry>, limit: usize) -> (kept: Vec<LogEntry>)
    ensures
        records(kept@) == newest(records(entries@), limit as nat),
        kept@ == newest(entries@, limit as nat),
{
    if entries.len() <= limit {
        return entries;
    }
    let ghost all = entries@;
    let mut rest = entries;
    let keep_from: usize = rest.len() - limit;
    let kept = rest.split_off(keep_from);
    assert(kept@ =~= newest(all, limit as nat));
    assert(records(kept@) =~= newest(records(all), limit as nat));
    kept
}

/// Of a log that only ever grows by [`QueryLog::push`], the newest entries
/// are kept: pushing one after the other leaves the last of all that came.
pub proof fn law_pushes_keep_the_newest(log: Seq<LogRecord>, added: Seq<LogRecord>)
    requires
        log.len() <= DEFAULT_MAX_ENTRIES,
    ensures
        added.fold_left(
            log,
            |kept: Seq<LogRecord>, record: LogRecord|
                newest(kept.push(record), DEFAULT_MAX_ENTRIES as nat),
        ) == newest(log + added, DEFAULT_MAX_ENTRIES as nat),
    decreases added.len(),
{
    let step = |kept: Seq<LogRecord>, record: LogRecord|
        newest(kept.push(record), DEFAULT_MAX_ENTRIES as nat);
    if added.len() == 0 {
        assert(log + added =~= log);
    } else {
        let rest = added.drop_last();
        law_pushes_keep_the_newest(log, rest);
        let kept = newest(log + rest, DEFAULT_MAX_ENTRIES as nat);
        assert(log + added =~= (log + rest).push(added.last()));
        assert(step(kept, added.last()) =~= newest(
            (log + rest).push(added.last()),
            DEFAULT_MAX_ENTRIES as nat,
        ));
    }
}

/// A record is found by a part of its name if and only if its name is something,
/// the part, and something behind it.
pub proof fn law_a_name_is_found_by_its_parts(record: LogRecord, part: Seq<char>)
    ensures
        wanted(Facets { domain_contains: Some(part), decision: None, voter: None })(record)
            <==> exists|before: Seq<char>, after: Seq<char>|
            #![trigger before.len(), after.len()]
            record.domain == before + part + after,
{
    let only = Facets { domain_contains: Some(part), decision: None, voter: None };
    if wanted(only)(record) {
        let s = record.domain;
        text::law_a_text_contains_its_parts(Seq::empty(), part, Seq::empty());
        assert(text::contains_text(s, part));
        let i = choose|i: int|
            0 <= i <= s.len() && s == #[trigger] s.take(i) + part + s.skip(i + part.len());
        assert(s.take(i).len() >= 0 && s.skip(i + part.len()).len() >= 0);
    }
    if exists|before: Seq<char>, after: Seq<char>|
        #![trigger before.len(), after.len()]
        record.domain == before + part + after {
        let (before, after) = choose|before: Seq<char>, after: Seq<char>|
            #![trigger before.len(), after.len()]
            record.domain == before + part + after;
        text::law_a_text_contains_its_parts(before, part, after);
    }
}

/// What is given of a search must hold, each for itself, and what is not given
/// does not matter: the name, the answer, and that the voter is among those of the
/// record.
pub proof fn law_a_search_is_for_all_that_is_given(facets: Facets, record: LogRecord)
    ensures
        wanted(facets)(record) <==> (facets.domain_contains matches Some(part) ==> wanted(
            Facets { domain_contains: Some(part), decision: None, voter: None },
        )(record)) && (facets.decision matches Some(decision) ==> record.decision == decision) && (
        facets.voter matches Some(voter) ==> exists|i: int|
            0 <= i < record.voters.len() && (#[trigger] record.voters[i]).provider_id == voter),
        wanted(Facets { domain_contains: None, decision: None, voter: None })(record),
{
    if let Some(voter) = facets.voter {
        if exists|i: int|
            0 <= i < record.voters.len() && (#[trigger] record.voters[i]).provider_id == voter {
            let i = choose|i: int|
                0 <= i < record.voters.len() && (#[trigger] record.voters[i]).provider_id == voter;
            assert(record.voters[i].provider_id == voter);
        }
        if wanted(facets)(record) {
            assert(voted(record, voter));
        }
    }
}

/// An entry is shown up to and including a day after its time, and no longer.
pub proof fn law_entries_are_shown_for_a_day(now: int, record: LogRecord)
    ensures
        recent(now)(record) <==> now <= record.timestamp + 24 * 60 * 60 * 1_000_000_000,
{
}

/// The newest of a list are its end: nothing is left out where they fit, and else
/// the first ones are.
pub proof fn law_the_newest_are_the_last<T>(older: Seq<T>, newer: Seq<T>, n: nat)
    ensures
        newer.len() <= n ==> newest(newer, n) == newer,
        newer.len() == n ==> newest(older + newer, n) == newer,
{
    assert((older + newer).skip(older.len() as int) =~= newer);
}

/// What is read of an entry is what its fields hold.
pub proof fn law_a_record_is_what_its_entry_holds(entry: LogEntry)
    ensures
        entry@.timestamp == entry.timestamp,
        entry@.domain == entry.domain@,
        entry@.qtype == entry.qtype,
        entry@.decision == entry.decision,
        entry@.decision_source == entry.decision_source,
        entry@.voters.len() == entry.voters@.len(),
        forall|i: int|
            #![trigger entry.voters@[i]]
            0 <= i < entry.voters@.len() ==> entry@.voters[i].provider_id
                == entry.voters@[i].provider_id@ && entry@.voters[i].verdict
                == entry.voters@[i].verdict && entry@.voters[i].allow_ip_count
                == entry.voters@[i].allow_ip_count && match entry.voters@[i].error_message {
                Some(message) => entry@.voters[i].error_message == Some(message@),
                None => entry@.voters[i].error_message is None,
            },
        match entry.geoip_country {
            Some(code) => entry@.geoip_country == Some(code@),
            None => entry@.geoip_country is None,
        },
        match entry.resolved_ip_country {
            Some(code) => entry@.resolved_ip_country == Some(code@),
            None => entry@.resolved_ip_country is None,
        },
        entry@.latency_ms == entry.latency_ms,
{
}

/// A list of entries is read one by one, in order; a search is read from what is
/// asked for.
pub proof fn law_records_come_in_order(entries: Seq<LogEntry>, i: int, filter: LogFilter)
    ensures
        records(entries).len() == entries.len(),
        0 <= i < entries.len() ==> records(entries)[i] == entries[i]@,
        match filter.domain_contains {
            Some(part) => filter@.domain_contains == Some(part@),
            None => filter@.domain_contains is None,
        },
        filter@.decision == filter.decision,
        match filter.voter {
            Some(voter) => filter@.voter == Some(voter@),
            None => filter@.voter is None,
        },
{
}

/// What voters say is read one by one, in order; a voter had a part in an answer
/// where one of these is its own.
pub proof fn law_votes_come_in_order(voters: Seq<VoterRecord>, i: int, record: LogRecord)
    ensures
        votes(voters).len() == voters.len(),
        0 <= i < voters.len() ==> votes(voters)[i] == voters[i]@,
        forall|voter: Seq<char>| #[trigger]
            voted(record, voter) <==> exists|k: int|
                0 <= k < record.voters.len() && (#[trigger] record.voters[k]).provider_id == voter,
{
}

} // verus!
