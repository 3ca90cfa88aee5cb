//! The form in which the query log is written to its file.
//!
//! It is kept apart from the log itself, so that the file's form changes only
//! where it is meant to.
use vstd::prelude::*;
use crate::query_log;
use crate::query_log::{Decision, DecisionSource, LogEntry, VoterRecord, VoterVerdict};
use crate::text;

verus! {

/// How a query was answered.
#[derive(Debug, Clone, Copy, PartialEq, Eq, Structural)]
pub enum PDecision {
    /// With an answer.
    Allowed,
    /// With a block.
    Blocked,
    /// Not at all.
    Failed,
}

/// What decided on the answer.
#[derive(Debug, Clone, Copy, PartialEq, Eq, Structural)]
pub enum PDecisionSource {
    /// The allowlist.
    Allowlist,
    /// The blocklist.
    Blocklist,
    /// An earlier verdict.
    Cache,
    /// The voters.
    Quorum,
    /// The country of an address.
    Geoip,
    /// The baseline resolver.
    BaselineFallback,
}

/// What a voter said.
#[derive(Debug, Clone, Copy, PartialEq, Eq, Structural)]
pub enum PVerdict {
    /// To block.
    Block,
    /// To allow.
    Allow,
    /// Nothing in time.
    Timeout,
    /// An error.
    Error,
    /// Nothing, because it was no longer needed.
    Canceled,
    /// Nothing, because it is switched off.
    Disabled,
}

impl From<Decision> for PDecision {
    fn from(from: Decision) -> (to: Self) {
        match from {
            Decision::Allowed => PDecision::Allowed,
            Decision::Blocked => PDecision::Blocked,
            Decision::Failed => PDecision::Failed,
        }
    }
}

impl vstd::std_specs::convert::FromSpecImpl<Decision> for PDecision {
    open spec fn obeys_from_spec() -> bool {
        true
    }

    open spec fn from_spec(from: Decision) -> Self {
        match from {
            Decision::Allowed => PDecision::Allowed,
            Decision::Blocked => PDecision::Blocked,
            Decision::Failed => PDecision::Failed,
        }
    }
}

impl From<PDecision> for Decision {
    fn from(from: PDecision) -> (to: Self) {
        match from {
            PDecision::Allowed => Decision::Allowed,
            PDecision::Blocked => Decision::Blocked,
            PDecision::Failed => Decision::Failed,
        }
    }
}

impl vstd::std_specs::convert::FromSpecImpl<PDecision> for Decision {
    open spec fn obeys_from_spec() -> bool {
        true
    }

    open spec fn from_spec(from: PDecision) -> Self {
        match from {
            PDecision::Allowed => Decision::Allowed,
            PDecision::Blocked => Decision::Blocked,
            PDecision::Failed => Decision::Failed,
        }
    }
}

impl From<DecisionSource> for PDecisionSource {
    fn from(from: DecisionSource) -> (to: Self) {
        match from {
            DecisionSource::Allowlist => PDecisionSource::Allowlist,
            DecisionSource::Blocklist => PDecisionSource::Blocklist,
            DecisionSource::Cache => PDecisionSource::Cache,
            DecisionSource::Quorum => PDecisionSource::Quorum,
            DecisionSource::Geoip => PDecisionSource::Geoip,
            DecisionSource::BaselineFallback => PDecisionSource::BaselineFallback,
        }
    }
}

impl vstd::std_specs::convert::FromSpecImpl<DecisionSource> for PDecisionSource {
    open spec fn obeys_from_spec() -> bool {
        true
    }

    open spec fn from_spec(from: DecisionSource) -> Self {
        match from {
            DecisionSource::Allowlist => PDecisionSource::Allowlist,
            DecisionSource::Blocklist => PDecisionSource::Blocklist,
            DecisionSource::Cache => PDecisionSource::Cache,
            DecisionSource::Quorum => PDecisionSource::Quorum,
            DecisionSource::Geoip => PDecisionSource::Geoip,
            DecisionSource::BaselineFallback => PDecisionSource::BaselineFallback,
        }
    }
}

impl From<PDecisionSource> for DecisionSource {
    fn from(from: PDecisionSource) -> (to: Self) {
        match from {
            PDecisionSource::Allowlist => DecisionSource::Allowlist,
            PDecisionSource::Blocklist => DecisionSource::Blocklist,
            PDecisionSource::Cache => DecisionSource::Cache,
            PDecisionSource::Quorum => DecisionSource::Quorum,
            PDecisionSource::Geoip => DecisionSource::Geoip,
            PDecisionSource::BaselineFallback => DecisionSource::BaselineFallback,
        }
    }
}

impl vstd::std_specs::convert::FromSpecImpl<PDecisionSource> for DecisionSource {
    open spec fn obeys_from_spec() -> bool {
        true
    }

    open spec fn from_spec(from: PDecisionSource) -> Self {
        match from {
            PDecisionSource::Allowlist => DecisionSource::Allowlist,
            PDecisionSource::Blocklist => DecisionSource::Blocklist,
            PDecisionSource::Cache => DecisionSource::Cache,
            PDecisionSource::Quorum => DecisionSource::Quorum,
            PDecisionSource::Geoip => DecisionSource::Geoip,
            PDecisionSource::BaselineFallback => DecisionSource::BaselineFallback,
        }
    }
}

impl From<VoterVerdict> for PVerdict {
    fn from(from: VoterVerdict) -> (to: Self) {
        match from {
            VoterVerdict::Block => PVerdict::Block,
            VoterVerdict::Allow => PVerdict::Allow,
            VoterVerdict::Timeout => PVerdict::Timeout,
            VoterVerdict::Error => PVerdict::Error,
            VoterVerdict::Canceled => PVerdict::Canceled,
            VoterVerdict::Disabled => PVerdict::Disabled,
        }
    }
}

impl vstd::std_specs::convert::FromSpecImpl<VoterVerdict> for PVerdict {
    open spec fn obeys_from_spec() -> bool {
        true
    }

    open spec fn from_spec(from: VoterVerdict) -> Self {
        match from {
            VoterVerdict::Block => PVerdict::Block,
            VoterVerdict::Allow => PVerdict::Allow,
            VoterVerdict::Timeout => PVerdict::Timeout,
            VoterVerdict::Error => PVerdict::Error,
            VoterVerdict::Canceled => PVerdict::Canceled,
            VoterVerdict::Disabled => PVerdict::Disabled,
        }
    }
}

impl From<PVerdict> for VoterVerdict {
    fn from(from: PVerdict) -> (to: Self) {
        match from {
            PVerdict::Block => VoterVerdict::Block,
            PVerdict::Allow => VoterVerdict::Allow,
            PVerdict::Timeout => VoterVerdict::Timeout,
            PVerdict::Error => VoterVerdict::Error,
            PVerdict::Canceled => VoterVerdict::Canceled,
            PVerdict::Disabled => VoterVerdict::Disabled,
        }
    }
}

impl vstd::std_specs::convert::FromSpecImpl<PVerdict> for VoterVerdict {
    open spec fn obeys_from_spec() -> bool {
        true
    }

    open spec fn from_spec(from: PVerdict) -> Self {
        match from {
            PVerdict::Block => VoterVerdict::Block,
            PVerdict::Allow => VoterVerdict::Allow,
            PVerdict::Timeout => VoterVerdict::Timeout,
            PVerdict::Error => VoterVerdict::Error,
            PVerdict::Canceled => VoterVerdict::Canceled,
            PVerdict::Disabled => VoterVerdict::Disabled,
        }
    }
}

/// One voter's part in an answer, as it stands in the file.
#[derive(Debug)]
pub struct PersistedVoter {
    /// The voter.
    pub provider_id: String,
    /// What it said.
    pub verdict: PVerdict,
    /// How many addresses it gave.
    pub allow_ip_count: Option<u32>,
    /// The kind of its error.
    pub error_message: Option<String>,
}

/// What a [`PersistedVoter`] says.
#[verifier::ext_equal]
pub struct StoredVote {
    /// The voter.
    pub provider_id: Seq<char>,
    /// What it said.
    pub verdict: PVerdict,
    /// How many addresses it gave.
    pub allow_ip_count: Option<u32>,
    /// The kind of its error.
    pub error_message: Option<Seq<char>>,
}

impl View for PersistedVoter {
    type V = StoredVote;

    open spec fn view(&self) -> StoredVote {
        StoredVote {
            provider_id: self.provider_id@,
            verdict: self.verdict,
            allow_ip_count: self.allow_ip_count,
            error_message: text::opt_text(self.error_message),
        }
    }
}

/// One answered query, as it stands in the file.
#[derive(Debug)]
pub struct PersistedLogEntry {
    /// When it was answered, in whole milliseconds since the Unix epoch.
    pub ts_millis: u64,
    /// The name that was asked for.
    pub domain: String,
    /// The record type that was asked for.
    pub qtype: u16,
    /// How it was answered.
    pub decision: PDecision,
    /// What decided on that.
    pub decision_source: PDecisionSource,
    /// Each voter's part.
    pub voters: Vec<PersistedVoter>,
    /// The blocked country, if one decided.
    pub geoip_country: Option<String>,
    /// The country of the first address of the answer.
    pub resolved_ip_country: Option<String>,
    /// How long it took, in milliseconds.
    pub latency_ms: u64,
}

/// What a [`PersistedLogEntry`] says.
#[verifier::ext_equal]
pub struct StoredRecord {
    /// When the query was answered.
    pub ts_millis: u64,
    /// The name.
    pub domain: Seq<char>,
    /// The record type.
    pub qtype: u16,
    /// How it was answered.
    pub decision: PDecision,
    /// What decided on that.
    pub decision_source: PDecisionSource,
    /// Each voter's part.
    pub voters: Seq<StoredVote>,
    /// The blocked country.
    pub geoip_country: Option<Seq<char>>,
    /// The country of the answer.
    pub resolved_ip_country: Option<Seq<char>>,
    /// How long it took.
    pub latency_ms: u64,
}

/// What a list of stored voters says.
pub open spec fn stored_votes(voters: Seq<PersistedVoter>) -> Seq<StoredVote> {
    voters.map_values(|v: PersistedVoter| v@)
}

/// What a list of stored entries says.
pub open spec fn stored_records(entries: Seq<PersistedLogEntry>) -> Seq<StoredRecord> {
    entries.map_values(|e: PersistedLogEntry| e@)
}

impl View for PersistedLogEntry {
    type V = StoredRecord;

    open spec fn view(&self) -> StoredRecord {
        StoredRecord {
            ts_millis: self.ts_millis,
            domain: self.domain@,
            qtype: self.qtype,
            decision: self.decision,
            decision_source: self.decision_source,
            voters: stored_votes(self.voters@),
            geoip_country: text::opt_text(self.geoip_country),
            resolved_ip_country: text::opt_text(self.resolved_ip_country),
            latency_ms: self.latency_ms,
        }
    }
}

/// The whole file before it is sealed. It is a record of its own, so that more
/// can stand beside the entries one day.
#[derive(Debug)]
pub struct PersistedFileV1 {
    /// Every entry, oldest first.
    pub entries: Vec<PersistedLogEntry>,
}

/// The kinds of error that a voter's record can name.
pub open spec fn known_error_kind(kind: Seq<char>) -> bool {
    kind == "encode"@ || kind == "http"@ || kind == "decode"@
}

/// The known kind of error that a stored text names, if it names one. A text
/// that a file brought in is never handed on as it is.
pub fn static_error_kind(s: &str) -> (kind: Option<&'static str>)
    ensures
        text::opt_str(kind) == (if known_error_kind(s@) {
            Some(s@)
        } else {
            None
        }),
{
    if text::same_text(s, "encode") {
        Some("encode")
    } else if text::same_text(s, "http") {
        Some("http")
    } else if text::same_text(s, "decode") {
        Some("decode")
    } else {
        None
    }
}

/// Nanoseconds in a millisecond.
pub const NANOS_PER_MILLI: i128 = 1_000_000;

/// A time in whole milliseconds since the Unix epoch, as far as `u64` goes. A
/// time before the epoch counts as the epoch.
pub open spec fn millis_of(nanos: int) -> u64 {
    if nanos < 0 {
        0
    } else if nanos / NANOS_PER_MILLI as int > u64::MAX {
        u64::MAX
    } else {
        (nanos / NANOS_PER_MILLI as int) as u64
    }
}

/// What stands in the file of a voter's part.
pub open spec fn stored_vote(vote: query_log::Vote) -> StoredVote {
    StoredVote {
        provider_id: vote.provider_id,
        verdict: <PVerdict as vstd::std_specs::convert::FromSpec<VoterVerdict>>::from_spec(
            vote.verdict,
        ),
        allow_ip_count: vote.allow_ip_count,
        error_message: vote.error_message,
    }
}

/// What is read back of a voter's part.
pub open spec fn restored_vote(vote: StoredVote) -> query_log::Vote {
    query_log::Vote {
        provider_id: vote.provider_id,
        verdict: <VoterVerdict as vstd::std_specs::convert::FromSpec<PVerdict>>::from_spec(
            vote.verdict,
        ),
        allow_ip_count: vote.allow_ip_count,
        error_message: match vote.error_message {
            Some(kind) if known_error_kind(kind) => Some(kind),
            _ => None,
        },
    }
}

/// What stands in the file of an answered query.
pub open spec fn stored(record: query_log::LogRecord) -> StoredRecord {
    StoredRecord {
        ts_millis: millis_of(record.timestamp),
        domain: record.domain,
        qtype: record.qtype,
        decision: <PDecision as vstd::std_specs::convert::FromSpec<Decision>>::from_spec(
            record.decision,
        ),
        decision_source: <PDecisionSource as vstd::std_specs::convert::FromSpec<
            DecisionSource,
        >>::from_spec(record.decision_source),
        voters: record.voters.map_values(|v: query_log::Vote| stored_vote(v)),
        geoip_country: record.geoip_country,
        resolved_ip_country: record.resolved_ip_country,
        latency_ms: record.latency_ms,
    }
}

/// What is read back of an answered query.
pub open spec fn restored(record: StoredRecord) -> query_log::LogRecord {
    query_log::LogRecord {
        timestamp: record.ts_millis * NANOS_PER_MILLI,
        domain: record.domain,
        qtype: record.qtype,
        decision: <Decision as vstd::std_specs::convert::FromSpec<PDecision>>::from_spec(
            record.decision,
        ),
        decision_source: <DecisionSource as vstd::std_specs::convert::FromSpec<
            PDecisionSource,
        >>::from_spec(record.decision_source),
        voters: record.voters.map_values(|v: StoredVote| restored_vote(v)),
        geoip_country: record.geoip_country,
        resolved_ip_country: record.resolved_ip_country,
        latency_ms: record.latency_ms,
    }
}

impl PersistedVoter {
    /// The stored form of a voter's part.
    pub fn of(voter: &VoterRecord) -> (stored: Self)
        ensures
            stored@ == stored_vote(voter@),
    {
        PersistedVoter {
            provider_id: voter.provider_id.clone(),
            verdict: PVerdict::from(voter.verdict),
            allow_ip_count: voter.allow_ip_count,
            error_message: match voter.error_message {
                Some(kind) => Some(kind.to_owned()),
                None => None,
            },
        }
    }

    /// The voter's part that a stored form stands for.
    pub fn into_record(self) -> (voter: VoterRecord)
        ensures
            voter@ == restored_vote(self@),
    {
        VoterRecord {
            provider_id: self.provider_id,
            verdict: VoterVerdict::from(self.verdict),
            allow_ip_count: self.allow_ip_count,
            error_message: match self.error_message {
                Some(kind) => static_error_kind(kind.as_str()),
                None => None,
            },
        }
    }
}

fn millis(nanos: i128) -> (millis: u64)
    ensures
        millis == millis_of(nanos as int),
{
    if nanos < 0 {
        return 0;
    }
    let whole: i128 = nanos / NANOS_PER_MILLI;
    if whole > u64::MAX as i128 {
        u64::MAX
    } else {
        whole as u64
    }
}

impl PersistedLogEntry {
    /// The stored form of an entry.
    pub fn of(entry: &LogEntry) -> (r: Self)
        ensures
            r@ == stored(entry@),
    {
        let mut voters: Vec<PersistedVoter> = Vec::new();
        let mut i: usize = 0;
        while i < entry.voters.len()
            invariant
                i <= entry.voters@.len(),
                voters@.len() == i,
                forall|j: int|
                    0 <= j < i ==> (#[trigger] voters@[j])@ == stored_vote(entry.voters@[j]@),
            decreases entry.voters@.len() - i,
        {
            voters.push(PersistedVoter::of(&entry.voters[i]));
            i = i + 1;
        }
        assert(stored_votes(voters@) =~= entry@.voters.map_values(
            |v: query_log::Vote| stored_vote(v),
        ));
        PersistedLogEntry {
            ts_millis: millis(entry.timestamp),
            domain: entry.domain.clone(),
            qtype: entry.qtype,
            decision: PDecision::from(entry.decision),
            decision_source: PDecisionSource::from(entry.decision_source),
            voters,
            geoip_country: text::copy_opt(&entry.geoip_country),
            resolved_ip_country: text::copy_opt(&entry.resolved_ip_country),
            latency_ms: entry.latency_ms,
        }
    }

    /// The entry that a stored form stands for.
    pub fn into_entry(self) -> (entry: LogEntry)
        ensures
            entry@ == restored(self@),
    {
        let ghost all = self.voters@;
        let mut left = self.voters;
        let mut voters: Vec<VoterRecord> = Vec::new();
        while left.len() > 0
            invariant
                left@ == all.skip(voters@.len() as int),
                voters@.len() + left@.len() == all.len(),
                forall|j: int|
                    0 <= j < voters@.len() ==> (#[trigger] voters@[j])@ == restored_vote(all[j]@),
            decreases left@.len(),
        {
            voters.push(left.remove(0).into_record());
            assert(left@ =~= all.skip(voters@.len() as int));
        }
        assert(query_log::votes(voters@) =~= stored_votes(all).map_values(
            |v: StoredVote| restored_vote(v),
        ));
        LogEntry {
            timestamp: (self.ts_millis as i128) * NANOS_PER_MILLI,
            domain: self.domain,
            qtype: self.qtype,
            decision: Decision::from(self.decision),
            decision_source: DecisionSource::from(self.decision_source),
            voters,
            geoip_country: self.geoip_country,
            resolved_ip_country: self.resolved_ip_country,
            latency_ms: self.latency_ms,
        }
    }
}

impl PersistedFileV1 {
    /// The file of a list of entries.
    pub fn of(entries: &[LogEntry]) -> (file: Self)
        ensures
            stored_records(file.entries@) == query_log::records(entries@).map_values(
                |r: query_log::LogRecord| stored(r),
            ),
    {
        let mut out: Vec<PersistedLogEntry> = Vec::new();
        let mut i: usize = 0;
        while i < entries.len()
            invariant
                i <= entries@.len(),
                out@.len() == i,
                forall|j: int| 0 <= j < i ==> (#[trigger] out@[j])@ == stored(entries@[j]@),
            decreases entries@.len() - i,
        {
            out.push(PersistedLogEntry::of(&entries[i]));
            i = i + 1;
        }
        assert(stored_records(out@) =~= query_log::records(entries@).map_values(
            |r: query_log::LogRecord| stored(r),
        ));
        PersistedFileV1 { entries: out }
    }

    /// The entries that a file holds, in its order.
    pub fn into_entries(self) -> (entries: Vec<LogEntry>)
        ensures
            query_log::records(entries@) == stored_records(self.entries@).map_values(
                |r: StoredRecord| restored(r),
            ),
    {
        let ghost all = self.entries@;
        let mut left = self.entries;
        let mut entries: Vec<LogEntry> = Vec::new();
        while left.len() > 0
            invariant
                left@ == all.skip(entries@.len() as int),
                entries@.len() + left@.len() == all.len(),
                forall|j: int|
                    0 <= j < entries@.len() ==> (#[trigger] entries@[j])@ == restored(all[j]@),
            decreases left@.len(),
        {
            entries.push(left.remove(0).into_entry());
            assert(left@ =~= all.skip(entries@.len() as int));
        }
        assert(query_log::records(entries@) =~= stored_records(all).map_values(
            |r: StoredRecord| restored(r),
        ));
        entries
    }
}

/// Whether a record says nothing that the file cannot hold: its time is one of
/// whole milliseconds that fits, and its voters name only known kinds of error.
pub open spec fn storable(record: query_log::LogRecord) -> bool {
    &&& 0 <= record.timestamp
    &&& record.timestamp % NANOS_PER_MILLI as int == 0
    &&& record.timestamp / NANOS_PER_MILLI as int <= u64::MAX
    &&& forall|i: int|
        0 <= i < record.voters.len() ==> ((#[trigger] record.voters[i]).error_message matches Some(
            kind,
        ) ==> known_error_kind(kind))
}

/// What the file brings back of a record is the record itself, in every field.
pub proof fn law_records_come_back(record: query_log::LogRecord)
    requires
        storable(record),
    ensures
        restored(stored(record)) == record,
{
    let back = restored(stored(record));
    assert forall|i: int| 0 <= i < record.voters.len() implies back.voters[i]
        == record.voters[i] by {
        assert(back.voters[i].error_message == record.voters[i].error_message);
    }
    assert(back.voters =~= record.voters);
}

/// A time that is not one of whole milliseconds comes back at most a
/// millisecond earlier.
pub proof fn law_times_lose_less_than_a_millisecond(record: query_log::LogRecord)
    requires
        0 <= record.timestamp,
        record.timestamp / NANOS_PER_MILLI as int <= u64::MAX,
    ensures
        restored(stored(record)).timestamp <= record.timestamp,
        record.timestamp - restored(stored(record)).timestamp < NANOS_PER_MILLI,
{
}

/// What a file brought in is never handed on as the kind of an error unless it
/// is a known one.
pub proof fn law_no_stored_text_is_handed_on(record: StoredRecord, i: int)
    requires
        0 <= i < record.voters.len(),
    ensures
        restored(record).voters[i].error_message matches Some(kind) ==> known_error_kind(kind),
{
}

/// Each decision, each source of one and each verdict stands in the file under its
/// own name, and is read back as what it was.
pub proof fn law_names_stay_what_they_are()
    ensures
        <PDecision as vstd::std_specs::convert::FromSpec<Decision>>::from_spec(Decision::Allowed) == PDecision::Allowed,
        <Decision as vstd::std_specs::convert::FromSpec<PDecision>>::from_spec(PDecision::Allowed) == Decision::Allowed,
        <PDecision as vstd::std_specs::convert::FromSpec<Decision>>::from_spec(Decision::Blocked) == PDecision::Blocked,
        <Decision as vstd::std_specs::convert::FromSpec<PDecision>>::from_spec(PDecision::Blocked) == Decision::Blocked,
        <PDecision as vstd::std_specs::convert::FromSpec<Decision>>::from_spec(Decision::Failed) == PDecision::Failed,
        <Decision as vstd::std_specs::convert::FromSpec<PDecision>>::from_spec(PDecision::Failed) == Decision::Failed,
        <PDecisionSource as vstd::std_specs::convert::FromSpec<DecisionSource>>::from_spec(DecisionSource::Allowlist) == PDecisionSource::Allowlist,
        <DecisionSource as vstd::std_specs::convert::FromSpec<PDecisionSource>>::from_spec(PDecisionSource::Allowlist) == DecisionSource::Allowlist,
        <PDecisionSource as vstd::std_specs::convert::FromSpec<DecisionSource>>::from_spec(DecisionSource::Blocklist) == PDecisionSource::Blocklist,
        <DecisionSource as vstd::std_specs::convert::FromSpec<PDecisionSource>>::from_spec(PDecisionSource::Blocklist) == DecisionSource::Blocklist,
        <PDecisionSource as vstd::std_specs::convert::FromSpec<DecisionSource>>::from_spec(DecisionSource::Cache) == PDecisionSource::Cache,
        <DecisionSource as vstd::std_specs::convert::FromSpec<PDecisionSource>>::from_spec(PDecisionSource::Cache) == DecisionSource::Cache,
        <PDecisionSource as vstd::std_specs::convert::FromSpec<DecisionSource>>::from_spec(DecisionSource::Quorum) == PDecisionSource::Quorum,
        <DecisionSource as vstd::std_specs::convert::FromSpec<PDecisionSource>>::from_spec(PDecisionSource::Quorum) == DecisionSource::Quorum,
        <PDecisionSource as vstd::std_specs::convert::FromSpec<DecisionSource>>::from_spec(DecisionSource::Geoip) == PDecisionSource::Geoip,
        <DecisionSource as vstd::std_specs::convert::FromSpec<PDecisionSource>>::from_spec(PDecisionSource::Geoip) == DecisionSource::Geoip,
        <PDecisionSource as vstd::std_specs::convert::FromSpec<DecisionSource>>::from_spec(DecisionSource::BaselineFallback) == PDecisionSource::BaselineFallback,
        <DecisionSource as vstd::std_specs::convert::FromSpec<PDecisionSource>>::from_spec(PDecisionSource::BaselineFallback) == DecisionSource::BaselineFallback,
        <PVerdict as vstd::std_specs::convert::FromSpec<VoterVerdict>>::from_spec(VoterVerdict::Block) == PVerdict::Block,
        <VoterVerdict as vstd::std_specs::convert::FromSpec<PVerdict>>::from_spec(PVerdict::Block) == VoterVerdict::Block,
        <PVerdict as vstd::std_specs::convert::FromSpec<VoterVerdict>>::from_spec(VoterVerdict::Allow) == PVerdict::Allow,
        <VoterVerdict as vstd::std_specs::convert::FromSpec<PVerdict>>::from_spec(PVerdict::Allow) == VoterVerdict::Allow,
        <PVerdict as vstd::std_specs::convert::FromSpec<VoterVerdict>>::from_spec(VoterVerdict::Timeout) == PVerdict::Timeout,
        <VoterVerdict as vstd::std_specs::convert::FromSpec<PVerdict>>::from_spec(PVerdict::Timeout) == VoterVerdict::Timeout,
        <PVerdict as vstd::std_specs::convert::FromSpec<VoterVerdict>>::from_spec(VoterVerdict::Error) == PVerdict::Error,
        <VoterVerdict as vstd::std_specs::convert::FromSpec<PVerdict>>::from_spec(PVerdict::Error) == VoterVerdict::Error,
        <PVerdict as vstd::std_specs::convert::FromSpec<VoterVerdict>>::from_spec(VoterVerdict::Canceled) == PVerdict::Canceled,
        <VoterVerdict as vstd::std_specs::convert::FromSpec<PVerdict>>::from_spec(PVerdict::Canceled) == VoterVerdict::Canceled,
        <PVerdict as vstd::std_specs::convert::FromSpec<VoterVerdict>>::from_spec(VoterVerdict::Disabled) == PVerdict::Disabled,
        <VoterVerdict as vstd::std_specs::convert::FromSpec<PVerdict>>::from_spec(PVerdict::Disabled) == VoterVerdict::Disabled,
{
}

/// What stands in the file of an answered query is, field by field, what the log
/// has of it; its time is in whole milliseconds after the epoch, rounded down.
pub proof fn law_what_is_stored_of_a_record(record: query_log::LogRecord, i: int)
    ensures
        record.timestamp <= 0 ==> stored(record).ts_millis == 0,
        record.timestamp >= 0 ==> stored(record).ts_millis * 1_000_000 <= record.timestamp,
        record.timestamp >= 0 ==> stored(record).ts_millis == u64::MAX || record.timestamp < (
        stored(record).ts_millis + 1) * 1_000_000,
        stored(record).domain == record.domain,
        stored(record).qtype == record.qtype,
        stored(record).decision == PDecision::Allowed <==> record.decision == Decision::Allowed,
        stored(record).decision == PDecision::Blocked <==> record.decision == Decision::Blocked,
        stored(record).decision == PDecision::Failed <==> record.decision == Decision::Failed,
        stored(record).decision_source == PDecisionSource::Allowlist <==> record.decision_source
            == DecisionSource::Allowlist,
        stored(record).decision_source == PDecisionSource::Blocklist <==> record.decision_source
            == DecisionSource::Blocklist,
        stored(record).decision_source == PDecisionSource::Cache <==> record.decision_source
            == DecisionSource::Cache,
        stored(record).decision_source == PDecisionSource::Quorum <==> record.decision_source
            == DecisionSource::Quorum,
        stored(record).decision_source == PDecisionSource::Geoip <==> record.decision_source
            == DecisionSource::Geoip,
        stored(record).decision_source == PDecisionSource::BaselineFallback <==> record.decision_source
            == DecisionSource::BaselineFallback,
        stored(record).voters.len() == record.voters.len(),
        0 <= i < record.voters.len() ==> stored(record).voters[i].provider_id
            == record.voters[i].provider_id && stored(record).voters[i].allow_ip_count
            == record.voters[i].allow_ip_count && stored(record).voters[i].error_message
            == record.voters[i].error_message,
        0 <= i < record.voters.len() ==> (stored(record).voters[i].verdict == PVerdict::Block
            <==> record.voters[i].verdict == VoterVerdict::Block),
        0 <= i < record.voters.len() ==> (stored(record).voters[i].verdict == PVerdict::Allow
            <==> record.voters[i].verdict == VoterVerdict::Allow),
        0 <= i < record.voters.len() ==> (stored(record).voters[i].verdict == PVerdict::Timeout
            <==> record.voters[i].verdict == VoterVerdict::Timeout),
        0 <= i < record.voters.len() ==> (stored(record).voters[i].verdict == PVerdict::Error
            <==> record.voters[i].verdict == VoterVerdict::Error),
        0 <= i < record.voters.len() ==> (stored(record).voters[i].verdict == PVerdict::Canceled
            <==> record.voters[i].verdict == VoterVerdict::Canceled),
        0 <= i < record.voters.len() ==> (stored(record).voters[i].verdict == PVerdict::Disabled
            <==> record.voters[i].verdict == VoterVerdict::Disabled),
        stored(record).geoip_country == record.geoip_country,
        stored(record).resolved_ip_country == record.resolved_ip_country,
        stored(record).latency_ms == record.latency_ms,
{
}

/// What is read back of a stored query is, field by field, what stands in the file;
/// of a voter's error it is one of the three known kinds or nothing.
pub proof fn law_what_is_read_back_of_a_record(record: StoredRecord, i: int)
    ensures
        restored(record).timestamp == record.ts_millis * 1_000_000,
        restored(record).domain == record.domain,
        restored(record).qtype == record.qtype,
        restored(record).decision == Decision::Allowed <==> record.decision == PDecision::Allowed,
        restored(record).decision == Decision::Blocked <==> record.decision == PDecision::Blocked,
        restored(record).decision == Decision::Failed <==> record.decision == PDecision::Failed,
        restored(record).decision_source == DecisionSource::Allowlist <==> record.decision_source
            == PDecisionSource::Allowlist,
        restored(record).decision_source == DecisionSource::Blocklist <==> record.decision_source
            == PDecisionSource::Blocklist,
        restored(record).decision_source == DecisionSource::Cache <==> record.decision_source
            == PDecisionSource::Cache,
        restored(record).decision_source == DecisionSource::Quorum <==> record.decision_source
            == PDecisionSource::Quorum,
        restored(record).decision_source == DecisionSource::Geoip <==> record.decision_source
            == PDecisionSource::Geoip,
        restored(record).decision_source == DecisionSource::BaselineFallback <==> record.decision_source
            == PDecisionSource::BaselineFallback,
        restored(record).voters.len() == record.voters.len(),
        0 <= i < record.voters.len() ==> restored(record).voters[i].provider_id
            == record.voters[i].provider_id && restored(record).voters[i].allow_ip_count
            == record.voters[i].allow_ip_count,
        0 <= i < record.voters.len() ==> (restored(record).voters[i].verdict == VoterVerdict::Block
            <==> record.voters[i].verdict == PVerdict::Block),
        0 <= i < record.voters.len() ==> (restored(record).voters[i].verdict == VoterVerdict::Allow
            <==> record.voters[i].verdict == PVerdict::Allow),
        0 <= i < record.voters.len() ==> (restored(record).voters[i].verdict == VoterVerdict::Timeout
            <==> record.voters[i].verdict == PVerdict::Timeout),
        0 <= i < record.voters.len() ==> (restored(record).voters[i].verdict == VoterVerdict::Error
            <==> record.voters[i].verdict == PVerdict::Error),
        0 <= i < record.voters.len() ==> (restored(record).voters[i].verdict == VoterVerdict::Canceled
            <==> record.voters[i].verdict == PVerdict::Canceled),
        0 <= i < record.voters.len() ==> (restored(record).voters[i].verdict == VoterVerdict::Disabled
            <==> record.voters[i].verdict == PVerdict::Disabled),
        0 <= i < record.voters.len() ==> restored(record).voters[i].error_message == (if (
        record.voters[i].error_message == Some("encode"@) || record.voters[i].error_message == Some(
            "http"@,
        ) || record.voters[i].error_message == Some("decode"@)) {
            record.voters[i].error_message
        } else {
            None
        }),
        restored(record).geoip_country == record.geoip_country,
        restored(record).resolved_ip_country == record.resolved_ip_country,
        restored(record).latency_ms == record.latency_ms,
{
}

/// What is stored of a single voter's part, and read back of it, is what a record
/// with that voter alone would hold of it.
pub proof fn law_parts_of_voters(vote: query_log::Vote, stored_part: StoredVote)
    ensures
        stored_vote(vote).provider_id == vote.provider_id,
        stored_vote(vote).allow_ip_count == vote.allow_ip_count,
        stored_vote(vote).error_message == vote.error_message,
        stored_vote(vote).verdict == PVerdict::Block <==> vote.verdict == VoterVerdict::Block,
        stored_vote(vote).verdict == PVerdict::Allow <==> vote.verdict == VoterVerdict::Allow,
        stored_vote(vote).verdict == PVerdict::Timeout <==> vote.verdict == VoterVerdict::Timeout,
        stored_vote(vote).verdict == PVerdict::Error <==> vote.verdict == VoterVerdict::Error,
        stored_vote(vote).verdict == PVerdict::Canceled <==> vote.verdict == VoterVerdict::Canceled,
        stored_vote(vote).verdict == PVerdict::Disabled <==> vote.verdict == VoterVerdict::Disabled,
        restored_vote(stored_part).provider_id == stored_part.provider_id,
        restored_vote(stored_part).allow_ip_count == stored_part.allow_ip_count,
        restored_vote(stored_part).error_message == (if stored_part.error_message == Some(
            "encode"@,
        ) || stored_part.error_message == Some("http"@) || stored_part.error_message == Some(
            "decode"@,
        ) {
            stored_part.error_message
        } else {
            None
        }),
        restored_vote(stored_part).verdict == VoterVerdict::Block <==> stored_part.verdict
            == PVerdict::Block,
        restored_vote(stored_part).verdict == VoterVerdict::Allow <==> stored_part.verdict
            == PVerdict::Allow,
        restored_vote(stored_part).verdict == VoterVerdict::Timeout <==> stored_part.verdict
            == PVerdict::Timeout,
        restored_vote(stored_part).verdict == VoterVerdict::Error <==> stored_part.verdict
            == PVerdict::Error,
        restored_vote(stored_part).verdict == VoterVerdict::Canceled <==> stored_part.verdict
            == PVerdict::Canceled,
        restored_vote(stored_part).verdict == VoterVerdict::Disabled <==> stored_part.verdict
            == PVerdict::Disabled,
{
}

/// What is read of a stored entry is what its fields hold.
pub proof fn law_a_stored_record_is_what_its_entry_holds(entry: PersistedLogEntry)
    ensures
        entry@.ts_millis == entry.ts_millis,
        entry@.domain == entry.domain@,
        entry@.qtype == entry.qtype,
        entry@.decision == entry.decision,
        entry@.decision_source == entry.decision_source,
        entry@.voters.len() == entry.voters@.len(),
        forall|i: int|
            #![trigger entry.voters@[i]]
            0 <= i < entry.voters@.len() ==> entry@.voters[i].provider_id
                == entry.voters@[i].provider_id@ && entry@.voters[i].verdict
                == entry.voters@[i].verdict && entry@.voters[i].allow_ip_count
                == entry.voters@[i].allow_ip_count && match entry.voters@[i].error_message {
                Some(message) => entry@.voters[i].error_message == Some(message@),
                None => entry@.voters[i].error_message is None,
            },
        match entry.geoip_country {
            Some(code) => entry@.geoip_country == Some(code@),
            None => entry@.geoip_country is None,
        },
        match entry.resolved_ip_country {
            Some(code) => entry@.resolved_ip_country == Some(code@),
            None => entry@.resolved_ip_country is None,
        },
        entry@.latency_ms == entry.latency_ms,
{
}

/// A stored list is read one by one, in order.
pub proof fn law_stored_records_come_in_order(entries: Seq<PersistedLogEntry>, i: int)
    ensures
        stored_records(entries).len() == entries.len(),
        0 <= i < entries.len() ==> stored_records(entries)[i] == entries[i]@,
{
}

/// The file can hold a record exactly where its time is one of whole milliseconds
/// from the epoch on that 64 bits can count, and each error of a voter is of one of
/// the three known kinds.
pub proof fn law_what_the_file_can_hold(record: query_log::LogRecord)
    ensures
        storable(record) <==> (exists|millis: u64|
            record.timestamp == #[trigger] (millis * 1_000_000)) && forall|i: int|
            0 <= i < record.voters.len() ==> ((#[trigger] record.voters[i]).error_message is None
                || record.voters[i].error_message == Some("encode"@)
                || record.voters[i].error_message == Some("http"@)
                || record.voters[i].error_message == Some("decode"@)),
{
    if storable(record) {
        let millis = (record.timestamp / 1_000_000) as u64;
        assert(record.timestamp == millis * 1_000_000);
    }
    if exists|millis: u64| record.timestamp == #[trigger] (millis * 1_000_000) {
        let millis = choose|millis: u64| record.timestamp == #[trigger] (millis * 1_000_000);
        assert(record.timestamp % 1_000_000 == 0);
        assert(record.timestamp / 1_000_000 == millis);
    }
}

/// There are three known kinds of error.
pub proof fn law_which_errors_are_known(kind: Seq<char>)
    ensures
        known_error_kind(kind) <==> seq!["encode"@, "http"@, "decode"@].contains(kind),
{
    let kinds = seq!["encode"@, "http"@, "decode"@];
    assert(kinds[0] == "encode"@ && kinds[1] == "http"@ && kinds[2] == "decode"@);
}

} // verus!
