//! Rules of the country database's refresh: which releases are tried, what of
//! a download is accepted, and when the database in use is replaced.
//!
//! Whatever goes wrong with a refresh, the database in use stays.
use vstd::prelude::*;
use vstd::string::*;
use crate::geoip::{GeoipError, GeoipReader};
use crate::geoip_credentials::MaxmindCredentials;
use crate::geoip_download::{
    candidate_download_urls, maxmind_download_url, unpack, unpack_archive, MAXMIND_EDITION,
    MAX_GEOIP_COMPRESSED_BYTES,
};
use crate::{digest, geoip, geoip_download, text};

verus! {

/// Seconds between two checks for a new release.
pub const GEOIP_CHECK_INTERVAL_SECONDS: u64 = 86_400;

/// Seconds that one attempt may take.
pub const GEOIP_FETCH_TIMEOUT_SECONDS: u64 = 120;

/// Seconds that a check of credentials may take.
pub const MAXMIND_CHECK_TIMEOUT_SECONDS: u64 = 10;

/// Where the database comes from.
pub enum GeoipSource {
    /// DB-IP's free database, without credentials.
    DbIpLite,
    /// MaxMind's database, with the operator's credentials.
    Maxmind(MaxmindCredentials),
}

impl Clone for GeoipSource {
    fn clone(&self) -> (copy: Self)
        ensures
            copy == *self,
    {
        match self {
            GeoipSource::DbIpLite => GeoipSource::DbIpLite,
            GeoipSource::Maxmind(credentials) => GeoipSource::Maxmind(credentials.clone()),
        }
    }
}

impl GeoipSource {
    /// What a log may say of the source: the account, and nothing of the key.
    pub fn log_text(&self) -> (line: String)
        ensures
            line@ == match self {
                GeoipSource::DbIpLite => "DbIpLite"@,
                GeoipSource::Maxmind(c) => "Maxmind(MaxmindCredentials { account_id: "@
                    + c.account_id@ + ", license_key: LicenseKey(\"<redacted>\") })"@,
            },
    {
        match self {
            GeoipSource::DbIpLite => "DbIpLite".to_owned(),
            GeoipSource::Maxmind(credentials) => {
                let mut line = "Maxmind(MaxmindCredentials { account_id: ".to_owned();
                line.append(credentials.account_id.as_str());
                line.append(", license_key: LicenseKey(\"<redacted>\") })");
                line
            },
        }
    }
}

/// How the last refresh from MaxMind went.
#[derive(Debug, Clone, Copy, PartialEq, Eq, Structural)]
pub enum MaxmindHealth {
    /// The database does not come from MaxMind.
    NotApplicable,
    /// No refresh with these credentials has ended yet.
    Pending,
    /// MaxMind accepted the credentials.
    Accepted,
    /// MaxMind refused the credentials.
    AuthRejected,
}

/// The health of a source that was just chosen.
pub open spec fn fresh_health(source: GeoipSource) -> MaxmindHealth {
    match source {
        GeoipSource::DbIpLite => MaxmindHealth::NotApplicable,
        GeoipSource::Maxmind(_) => MaxmindHealth::Pending,
    }
}

/// The health of a source that was just chosen.
pub fn initial_health(source: &GeoipSource) -> (health: MaxmindHealth)
    ensures
        health == fresh_health(*source),
{
    match source {
        GeoipSource::DbIpLite => MaxmindHealth::NotApplicable,
        GeoipSource::Maxmind(_) => MaxmindHealth::Pending,
    }
}

/// Why a refresh failed.
#[derive(Debug)]
pub enum GeoipUpdateError {
    /// Neither this month's nor last month's release was of use. Holds the
    /// error of the latter.
    NoReleaseFound(Box<GeoipUpdateError>),
    /// The request failed, in the client's own words.
    Http(String),
    /// There is more to download than is accepted.
    CompressedTooLarge,
    /// The download does not match its published checksum.
    ChecksumMismatch,
    /// The download could not be decompressed.
    Decompress(String),
    /// What was downloaded is not a database.
    InvalidDatabase(GeoipError),
    /// The database is not one of countries. Holds its type in lower case.
    UnexpectedDatabaseType(String),
    /// The database could not be written to disk.
    Io(String),
    /// The attempt took too long.
    Timeout,
    /// The request to MaxMind failed. Says no more, since the request carries
    /// a secret.
    MaxmindDownloadFailed,
    /// MaxMind refused the credentials.
    MaxmindAuthRejected,
    /// The download from MaxMind does not match its published checksum.
    MaxmindChecksumMismatch,
    /// There is no database to be had from MaxMind's archive.
    MaxmindArchiveInvalid(String),
}

/// The database in use and when it was built, in seconds after the Unix epoch.
pub struct GeoipState {
    /// The database, once there is one.
    pub reader: Option<GeoipReader>,
    /// When it was built, if that is known.
    pub updated_at: Option<u64>,
}

impl Default for GeoipState {
    fn default() -> (state: Self)
        ensures
            state.reader is None,
            state.updated_at is None,
    {
        GeoipState { reader: None, updated_at: None }
    }
}

/// A download as far as it has come, never longer than is accepted.
#[derive(Debug)]
pub struct BoundedBody {
    bytes: Vec<u8>,
}

impl View for BoundedBody {
    type V = Seq<u8>;

    closed spec fn view(&self) -> Seq<u8> {
        self.bytes@
    }
}

impl BoundedBody {
    /// That the download is not longer than is accepted.
    pub open spec fn wf(&self) -> bool {
        self@.len() <= MAX_GEOIP_COMPRESSED_BYTES
    }

    /// A download that has not begun.
    pub fn new() -> (body: Self)
        ensures
            body.wf(),
            body@ == Seq::<u8>::empty(),
    {
        BoundedBody { bytes: Vec::new() }
    }

    /// Takes the next chunk, unless there would be too much: then nothing is
    /// taken.
    pub fn extend(&mut self, chunk: &[u8]) -> (r: Result<(), GeoipUpdateError>)
        requires
            old(self).wf(),
        ensures
            final(self).wf(),
            match r {
                Ok(()) => final(self)@ == old(self)@ + chunk@,
                Err(e) => e is CompressedTooLarge && old(self)@.len() + chunk@.len()
                    > MAX_GEOIP_COMPRESSED_BYTES && final(self)@ == old(self)@,
            },
    {
        let room: u64 = MAX_GEOIP_COMPRESSED_BYTES - self.bytes.len() as u64;
        if chunk.len() as u64 > room {
            return Err(GeoipUpdateError::CompressedTooLarge);
        }
        let ghost before = self.bytes@;
        self.bytes.extend_from_slice(chunk);
        assert(self.bytes@ =~= before + chunk@);
        Ok(())
    }

    /// The whole download.
    pub fn into_bytes(self) -> (bytes: Vec<u8>)
        ensures
            bytes@ == self@,
    {
        self.bytes
    }
}

/// Whether a status says that a request succeeded.
pub open spec fn success_status(status: u16) -> bool {
    200 <= status < 300
}

/// Whether a download is given up because of its status: any but success.
pub fn status_is_error(status: u16) -> (failed: bool)
    ensures
        failed == !success_status(status),
{
    !(200 <= status && status < 300)
}

/// Whether a download from MaxMind may go on after its status.
pub fn check_download_status(status: u16) -> (r: Result<(), GeoipUpdateError>)
    ensures
        match r {
            Ok(()) => success_status(status),
            Err(e) => !success_status(status) && if status == 401 || status == 403 {
                e is MaxmindAuthRejected
            } else {
                e is MaxmindDownloadFailed
            },
        },
{
    if status == 401 || status == 403 {
        Err(GeoipUpdateError::MaxmindAuthRejected)
    } else if status_is_error(status) {
        Err(GeoipUpdateError::MaxmindDownloadFailed)
    } else {
        Ok(())
    }
}

/// What reaching MaxMind with some credentials came to.
#[derive(Debug, Clone, Copy, PartialEq, Eq, Structural)]
pub enum ProbeReply {
    /// The reply's status.
    Status(u16),
    /// There was no reply.
    Failed,
    /// The reply did not come in time.
    TimedOut,
}

/// What a probe with some credentials says of them.
pub fn check_maxmind_credentials(reply: ProbeReply) -> (r: Result<(), GeoipUpdateError>)
    ensures
        match (reply, r) {
            (ProbeReply::Status(s), Ok(())) => success_status(s),
            (ProbeReply::Status(s), Err(e)) => !success_status(s) && if s == 401 || s == 403 {
                e is MaxmindAuthRejected
            } else {
                e is MaxmindDownloadFailed
            },
            (ProbeReply::Failed, Err(e)) => e is MaxmindDownloadFailed,
            (ProbeReply::TimedOut, Err(e)) => e is Timeout,
            _ => false,
        },
{
    match reply {
        ProbeReply::Status(status) => if status == 401 || status == 403 {
            Err(GeoipUpdateError::MaxmindAuthRejected)
        } else if 200 <= status && status < 300 {
            Ok(())
        } else {
            Err(GeoipUpdateError::MaxmindDownloadFailed)
        },
        ProbeReply::Failed => Err(GeoipUpdateError::MaxmindDownloadFailed),
        ProbeReply::TimedOut => Err(GeoipUpdateError::Timeout),
    }
}

/// Whether `token` is `len` hexadecimal digits.
pub open spec fn hex_of_length(token: Seq<char>, len: nat) -> bool {
    token.len() == len && forall|i: int|
        0 <= i < token.len() ==> text::hex_char(#[trigger] token[i])
}

/// Whether a token has the form of a SHA-1 digest.
pub fn looks_like_sha1_hex(token: &str) -> (yes: bool)
    ensures
        yes == hex_of_length(token@, 40),
{
    let chars = text::chars_of(token);
    chars.len() == 40 && text::all_hex(&chars)
}

/// Whether a token has the form of a SHA-256 digest.
pub fn looks_like_sha256_hex(token: &str) -> (yes: bool)
    ensures
        yes == hex_of_length(token@, 64),
{
    let chars = text::chars_of(token);
    chars.len() == 64 && text::all_hex(&chars)
}

/// The digest that a checksum file gives: its first word in lower case, if it
/// has the form of a digest of `len` digits and the file was found. A page
/// that merely says that there is none is no digest.
pub open spec fn published_digest(status: u16, body: Seq<char>, len: nat) -> Option<Seq<char>> {
    let token = text::lower_text(text::first_word(body));
    if success_status(status) && hex_of_length(token, len) {
        Some(token)
    } else {
        None
    }
}

/// The first word of a checksum file in lower case, if the file was found.
fn published_word(status: u16, body: &str) -> (word: Option<String>)
    ensures
        text::opt_text(word) == if success_status(status) {
            Some(text::lower_text(text::first_word(body@)))
        } else {
            None
        },
{
    if status_is_error(status) {
        return None;
    }
    let chars = text::chars_of(body);
    let token = text::to_lower(text::first_word_chars(&chars));
    Some(text::string_of(&token))
}

/// The SHA-1 digest that a checksum file gives, if it does.
pub fn checksum_sidecar(status: u16, body: &str) -> (digest: Option<String>)
    ensures
        text::opt_text(digest) == published_digest(status, body@, 40),
{
    match published_word(status, body) {
        Some(word) if looks_like_sha1_hex(word.as_str()) => Some(word),
        _ => None,
    }
}

/// The SHA-256 digest that a checksum file of MaxMind gives, if it does.
pub fn maxmind_checksum_sidecar(status: u16, body: &str) -> (digest: Option<String>)
    ensures
        text::opt_text(digest) == published_digest(status, body@, 64),
{
    match published_word(status, body) {
        Some(word) if looks_like_sha256_hex(word.as_str()) => Some(word),
        _ => None,
    }
}

/// Whether an expected digest is `hex`, but for case and white space round it.
pub open spec fn digest_agrees(expected: Seq<char>, hex: Seq<char>) -> bool {
    text::same_ignoring_case(text::trim(expected), hex)
}

/// Whether an expected digest is `hex`, but for case and white space round it.
pub fn agrees(expected_hex: &str, hex: &str) -> (same: bool)
    ensures
        same == digest_agrees(expected_hex@, hex@),
{
    let chars = text::chars_of(expected_hex);
    let expected = text::to_lower(text::trim_chars(&chars));
    let actual = text::to_lower(&text::chars_of(hex));
    text::same_chars(&expected, &actual)
}

/// Whether bytes have the expected SHA-1 digest.
pub fn checksum_matches(expected_hex: &str, bytes: &[u8]) -> (same: bool)
    ensures
        same == digest_agrees(expected_hex@, text::hex_text(digest::sha1_digest(bytes@))),
{
    agrees(expected_hex, digest::sha1_hex(bytes).as_str())
}

/// Whether bytes have the expected SHA-256 digest.
pub fn checksum_matches_sha256(expected_hex: &str, bytes: &[u8]) -> (same: bool)
    ensures
        same == digest_agrees(expected_hex@, text::hex_text(digest::sha256_digest(bytes@))),
{
    agrees(expected_hex, digest::sha256_hex(bytes).as_str())
}

/// Whether a database's type is one of countries.
pub open spec fn country_type(database_type: Seq<char>) -> bool {
    text::contains_text(text::lower_text(database_type), "country"@)
}

/// Accepts the type of a database only if it is one of countries.
pub fn check_database_type(database_type: &str) -> (r: Result<(), GeoipUpdateError>)
    ensures
        match r {
            Ok(()) => country_type(database_type@),
            Err(e) => !country_type(database_type@) && (
            e matches GeoipUpdateError::UnexpectedDatabaseType(t) && t@ == text::lower_text(
                database_type@,
            )),
        },
{
    let lower = text::to_lower(&text::chars_of(database_type));
    if text::contains_chars(&lower, &text::chars_of("country")) {
        Ok(())
    } else {
        Err(GeoipUpdateError::UnexpectedDatabaseType(text::string_of(&lower)))
    }
}

/// A release that was accepted: its database, and the bytes to be written to
/// disk for it.
pub struct Release {
    /// The open database.
    pub reader: GeoipReader,
    /// Its bytes.
    pub content: Vec<u8>,
}

/// What the bytes of a database come to: whether they are accepted as one of
/// countries, and if not, why.
pub open spec fn database_verdict(
    content: Seq<u8>,
    r: Result<Release, GeoipUpdateError>,
) -> bool {
    match r {
        Ok(release) => release.reader.content() == content && release.content@ == content && (
        geoip::mmdb_metadata(content) matches Some(
            (database_type, _),
        ) && country_type(database_type)),
        Err(GeoipUpdateError::InvalidDatabase(_)) => geoip::may_be_refused(content),
        Err(GeoipUpdateError::UnexpectedDatabaseType(t)) => geoip::mmdb_metadata(
            content,
        ) matches Some((database_type, _)) && !country_type(database_type) && t@ == text::lower_text(
            database_type,
        ),
        Err(_) => false,
    }
}

/// Opens a database and accepts it only if it is one of countries.
fn accept_database(content: Vec<u8>) -> (r: Result<Release, GeoipUpdateError>)
    ensures
        database_verdict(content@, r),
{
    let reader = match GeoipReader::from_bytes(content.clone()) {
        Ok(reader) => reader,
        Err(error) => {
            return Err(GeoipUpdateError::InvalidDatabase(error));
        },
    };
    match check_database_type(reader.database_type()) {
        Ok(()) => Ok(Release { reader, content }),
        Err(error) => Err(error),
    }
}

/// What a download from DB-IP comes to: first its checksum counts, if one was
/// published, then its decompression, then the database itself.
pub open spec fn release_verdict(
    gz: Seq<u8>,
    sidecar: Option<Seq<char>>,
    r: Result<Release, GeoipUpdateError>,
) -> bool {
    if sidecar is Some && !digest_agrees(sidecar->0, text::hex_text(digest::sha1_digest(gz))) {
        r matches Err(GeoipUpdateError::ChecksumMismatch)
    } else {
        match geoip_download::unpacked(gz, geoip_download::MAX_GEOIP_DECOMPRESSED_BYTES) {
            Err(error) => r matches Err(GeoipUpdateError::Decompress(t)) && t@ == error,
            Ok(content) => database_verdict(content, r),
        }
    }
}

/// What a download from MaxMind comes to.
pub open spec fn maxmind_verdict(
    gz: Seq<u8>,
    sidecar: Option<Seq<char>>,
    r: Result<Release, GeoipUpdateError>,
) -> bool {
    if sidecar is Some && !digest_agrees(sidecar->0, text::hex_text(digest::sha256_digest(gz))) {
        r matches Err(GeoipUpdateError::MaxmindChecksumMismatch)
    } else {
        match geoip_download::unpacked_archive(gz, geoip_download::MAX_GEOIP_DECOMPRESSED_BYTES) {
            Err(error) => r matches Err(GeoipUpdateError::MaxmindArchiveInvalid(t)) && t@ == error,
            Ok(content) => database_verdict(content, r),
        }
    }
}

/// Checks a download from DB-IP and opens the database in it.
pub fn try_one_release(gz_bytes: &[u8], sidecar: Option<&str>) -> (r: Result<
    Release,
    GeoipUpdateError,
>)
    ensures
        release_verdict(gz_bytes@, text::opt_str(sidecar), r),
{
    match sidecar {
        Some(expected) => {
            if !checksum_matches(expected, gz_bytes) {
                return Err(GeoipUpdateError::ChecksumMismatch);
            }
        },
        None => {},
    }
    match unpack(gz_bytes) {
        Ok(content) => accept_database(content),
        Err(error) => Err(GeoipUpdateError::Decompress(error)),
    }
}

/// Checks a download from MaxMind and opens the database in it.
pub fn try_one_maxmind_release(gz_bytes: &[u8], sidecar: Option<&str>) -> (r: Result<
    Release,
    GeoipUpdateError,
>)
    ensures
        maxmind_verdict(gz_bytes@, text::opt_str(sidecar), r),
{
    match sidecar {
        Some(expected) => {
            if !checksum_matches_sha256(expected, gz_bytes) {
                return Err(GeoipUpdateError::MaxmindChecksumMismatch);
            }
        },
        None => {},
    }
    match unpack_archive(gz_bytes) {
        Ok(content) => accept_database(content),
        Err(error) => Err(GeoipUpdateError::MaxmindArchiveInvalid(error)),
    }
}

/// Ends an attempt: the new database comes into use if it was accepted and has
/// been written to disk; else the one in use stays.
pub fn finish_release(
    state: &mut GeoipState,
    checked: Result<Release, GeoipUpdateError>,
    persisted: Result<(), String>,
) -> (r: Result<(), GeoipUpdateError>)
    ensures
        match (checked, persisted) {
            (Err(error), _) => r == Err::<(), GeoipUpdateError>(error) && *final(state) == *old(
                state,
            ),
            (Ok(_), Err(error)) => r == Err::<(), GeoipUpdateError>(GeoipUpdateError::Io(error))
                && *final(state) == *old(state),
            (Ok(release), Ok(())) => r is Ok && final(state).reader == Some(release.reader)
                && final(state).updated_at == if (geoip::mmdb_metadata(
                release.reader.content(),
            )->0).1 <= i64::MAX {
                Some((geoip::mmdb_metadata(release.reader.content())->0).1)
            } else {
                None
            },
        },
        r is Err ==> *final(state) == *old(state),
{
    match checked {
        Err(error) => Err(error),
        Ok(Release { reader, .. }) => match persisted {
            Err(error) => Err(GeoipUpdateError::Io(error)),
            Ok(()) => {
                let updated_at = reader.build_time();
                state.updated_at = updated_at;
                state.reader = Some(reader);
                Ok(())
            },
        },
    }
}

/// Which attempt of a refresh has ended.
#[derive(Debug, Clone, Copy, PartialEq, Eq, Structural)]
pub enum Attempt {
    /// The first.
    First,
    /// The second.
    Second,
}

/// What a refresh does next.
pub enum RefreshStep {
    /// Download from here.
    Download(String),
    /// Nothing more.
    Finished(Result<(), GeoipUpdateError>),
}

/// Where a refresh begins: this month's release, or MaxMind's latest.
pub fn refresh_once(source: &GeoipSource, unix_seconds: u64) -> (url: String)
    ensures
        match source {
            GeoipSource::DbIpLite => exists|year: int, month: int| #[trigger]
                geoip_download::in_month(unix_seconds, year, month) && year >= 1 && url@
                    == geoip_download::release_url(year as nat, month as nat),
            GeoipSource::Maxmind(_) => url@ == "https://download.maxmind.com/geoip/databases/"@
                + MAXMIND_EDITION@ + "/download?suffix="@ + "tar.gz"@,
        },
{
    match source {
        GeoipSource::DbIpLite => {
            let urls = candidate_download_urls(unix_seconds);
            urls[0].clone()
        },
        GeoipSource::Maxmind(_) => maxmind_download_url(MAXMIND_EDITION, "tar.gz"),
    }
}

/// Whether `url` is the release of the month before the one of `unix_seconds`.
pub open spec fn previous_release(unix_seconds: u64, url: Seq<char>) -> bool {
    exists|year: int, month: int| #[trigger]
        geoip_download::in_month(unix_seconds, year, month) && year >= 1 && url
            == geoip_download::release_url(
            geoip_download::month_before(year, month).0 as nat,
            geoip_download::month_before(year, month).1 as nat,
        )
}

/// What follows an attempt; none is what a time limit leaves of one. Last
/// month's release of DB-IP is tried where this month's is of no use; that of
/// MaxMind is always the latest.
pub fn after_attempt(
    source: &GeoipSource,
    unix_seconds: u64,
    attempt: Attempt,
    outcome: Option<Result<(), GeoipUpdateError>>,
) -> (step: RefreshStep)
    ensures
        match (outcome, source, attempt) {
            (Some(Ok(())), _, _) => step matches RefreshStep::Finished(r) && r is Ok,
            (Some(Err(_)), GeoipSource::DbIpLite, Attempt::First)
            | (None, GeoipSource::DbIpLite, Attempt::First) => step matches RefreshStep::Download(
                url,
            ) && previous_release(unix_seconds, url@),
            (Some(Err(error)), GeoipSource::DbIpLite, Attempt::Second) =>
            step matches RefreshStep::Finished(Err(GeoipUpdateError::NoReleaseFound(inner)))
                && *inner == error,
            (None, GeoipSource::DbIpLite, Attempt::Second) => step matches RefreshStep::Finished(
                Err(GeoipUpdateError::NoReleaseFound(inner)),
            ) && *inner is Timeout,
            (Some(Err(error)), GeoipSource::Maxmind(_), _) => step matches RefreshStep::Finished(r)
                && r == Err::<(), GeoipUpdateError>(error),
            (None, GeoipSource::Maxmind(_), _) => step matches RefreshStep::Finished(Err(e))
                && e is Timeout,
        },
{
    let result = match outcome {
        Some(result) => result,
        None => Err(GeoipUpdateError::Timeout),
    };
    match result {
        Ok(()) => RefreshStep::Finished(Ok(())),
        Err(error) => match source {
            GeoipSource::Maxmind(_) => RefreshStep::Finished(Err(error)),
            GeoipSource::DbIpLite => match attempt {
                Attempt::First => {
                    let urls = candidate_download_urls(unix_seconds);
                    RefreshStep::Download(urls[1].clone())
                },
                Attempt::Second => RefreshStep::Finished(
                    Err(GeoipUpdateError::NoReleaseFound(Box::new(error))),
                ),
            },
        },
    }
}

/// What a refresh says of the health of its source. Only MaxMind's own word on
/// the credentials counts; a refresh that failed otherwise says nothing new.
pub open spec fn health_after(
    source: GeoipSource,
    known: MaxmindHealth,
    outcome: Result<(), GeoipUpdateError>,
) -> MaxmindHealth {
    match (source, outcome) {
        (GeoipSource::DbIpLite, _) => MaxmindHealth::NotApplicable,
        (_, Ok(_)) => MaxmindHealth::Accepted,
        (_, Err(GeoipUpdateError::MaxmindAuthRejected)) => MaxmindHealth::AuthRejected,
        _ => known,
    }
}

/// Whether two sources are the same one, with the same credentials.
pub open spec fn same_source_as(a: GeoipSource, b: GeoipSource) -> bool {
    match (a, b) {
        (GeoipSource::DbIpLite, GeoipSource::DbIpLite) => true,
        (GeoipSource::Maxmind(x), GeoipSource::Maxmind(y)) => x.account_id@ == y.account_id@
            && x.license_key@ == y.license_key@,
        _ => false,
    }
}

/// Whether two sources are the same one, with the same credentials.
pub fn same_source(a: &GeoipSource, b: &GeoipSource) -> (same: bool)
    ensures
        same == same_source_as(*a, *b),
{
    match (a, b) {
        (GeoipSource::DbIpLite, GeoipSource::DbIpLite) => true,
        (GeoipSource::Maxmind(x), GeoipSource::Maxmind(y)) => text::same_text(
            x.account_id.as_str(),
            y.account_id.as_str(),
        ) && text::same_text(x.license_key.expose_secret(), y.license_key.expose_secret()),
        _ => false,
    }
}

/// What a refresh says of the health of its source, given what was known of it.
pub fn refresh_health(
    source: &GeoipSource,
    known: MaxmindHealth,
    outcome: &Result<(), GeoipUpdateError>,
) -> (health: MaxmindHealth)
    ensures
        health == health_after(*source, known, *outcome),
{
    match source {
        GeoipSource::DbIpLite => MaxmindHealth::NotApplicable,
        GeoipSource::Maxmind(_) => match outcome {
            Ok(()) => MaxmindHealth::Accepted,
            Err(GeoipUpdateError::MaxmindAuthRejected) => MaxmindHealth::AuthRejected,
            Err(_) => known,
        },
    }
}

/// A source that was just chosen has no health where it is not MaxMind, and one
/// that is yet to be told where it is.
pub proof fn law_the_health_of_a_new_source(source: GeoipSource)
    ensures
        source is Maxmind ==> fresh_health(source) == MaxmindHealth::Pending,
        source is DbIpLite ==> fresh_health(source) == MaxmindHealth::NotApplicable,
{
}

/// A request succeeded where its status is one of the two hundreds.
pub proof fn law_which_statuses_are_of_success(status: u16)
    ensures
        success_status(status) <==> status / 100 == 2,
{
}

/// A checksum file publishes a digest if and only if it was found and its first
/// word is so many hexadecimal digits; the digest is that word in lower case,
/// whatever stands behind it.
pub proof fn law_what_a_checksum_file_publishes(
    status: u16,
    before: Seq<char>,
    word: Seq<char>,
    after: Seq<char>,
    len: nat,
)
    requires
        forall|i: int| 0 <= i < before.len() ==> text::white_space(#[trigger] before[i]),
        forall|i: int| 0 <= i < word.len() ==> !text::white_space(#[trigger] word[i]),
        after.len() > 0 ==> word.len() > 0 && text::white_space(after[0]),
    ensures
        published_digest(status, before + word + after, len) is Some <==> 200 <= status <= 299
            && word.len() == len && forall|i: int|
            0 <= i < word.len() ==> ('0' <= #[trigger] word[i] && word[i] <= '9') || ('a' <= word[i]
                && word[i] <= 'f') || ('A' <= word[i] && word[i] <= 'F'),
        published_digest(status, before + word + after, len) matches Some(digest) ==> digest
            == text::lower_text(word),
{
    text::law_which_word_is_the_first(before, word, after);
    let token = text::lower_text(word);
    assert forall|i: int| 0 <= i < word.len() implies text::hex_char(#[trigger] token[i]) == (('0'
        <= word[i] && word[i] <= '9') || ('a' <= word[i] && word[i] <= 'f') || ('A' <= word[i]
        && word[i] <= 'F')) by {
        text::law_case_changes_letters_alone(word, i);
    }
    if hex_of_length(token, len) {
        assert forall|i: int| 0 <= i < word.len() implies ('0' <= #[trigger] word[i] && word[i]
            <= '9') || ('a' <= word[i] && word[i] <= 'f') || ('A' <= word[i] && word[i]
            <= 'F') by {
            assert(text::hex_char(token[i]));
        }
    }
}

/// A text is a digest of so many digits where each of its characters is one.
pub proof fn law_what_a_digest_looks_like(token: Seq<char>, len: nat)
    ensures
        hex_of_length(token, len) <==> token.len() == len && forall|i: int|
            0 <= i < token.len() ==> ('0' <= #[trigger] token[i] && token[i] <= '9') || ('a'
                <= token[i] && token[i] <= 'f') || ('A' <= token[i] && token[i] <= 'F'),
{
    if token.len() == len && forall|i: int|
        0 <= i < token.len() ==> ('0' <= #[trigger] token[i] && token[i] <= '9') || ('a' <= token[i]
            && token[i] <= 'f') || ('A' <= token[i] && token[i] <= 'F') {
        assert forall|i: int| 0 <= i < token.len() implies text::hex_char(#[trigger] token[i]) by {}
    }
    if hex_of_length(token, len) {
        assert forall|i: int| 0 <= i < token.len() implies ('0' <= #[trigger] token[i] && token[i]
            <= '9') || ('a' <= token[i] && token[i] <= 'f') || ('A' <= token[i] && token[i]
            <= 'F') by {
            assert(text::hex_char(token[i]));
        }
    }
}

/// An expected digest agrees with another where both have the same digits in any
/// case; white space round it does not count.
pub proof fn law_when_digests_agree(
    before: Seq<char>,
    expected: Seq<char>,
    after: Seq<char>,
    hex: Seq<char>,
)
    requires
        forall|i: int| 0 <= i < before.len() ==> text::white_space(#[trigger] before[i]),
        forall|i: int| 0 <= i < after.len() ==> text::white_space(#[trigger] after[i]),
        expected.len() > 0 ==> !text::white_space(expected[0]) && !text::white_space(
            expected.last(),
        ),
    ensures
        digest_agrees(before + expected + after, hex) <==> expected.len() == hex.len() && forall|
            i: int,
        |
            #![trigger expected[i], hex[i]]
            0 <= i < hex.len() ==> expected[i] == hex[i] || ('A' <= expected[i] && expected[i]
                <= 'Z' && hex[i] as int == expected[i] as int + 32) || ('A' <= hex[i] && hex[i]
                <= 'Z' && expected[i] as int == hex[i] as int + 32),
{
    text::law_trimming_takes_white_space_alone(before, expected, after);
    text::law_same_but_for_case(expected, hex);
}

/// A database is one of countries where its type has the word somewhere, in any
/// case.
pub proof fn law_which_databases_are_of_countries(
    before: Seq<char>,
    word: Seq<char>,
    after: Seq<char>,
    database_type: Seq<char>,
)
    ensures
        text::same_ignoring_case(word, "country"@) ==> country_type(before + word + after),
        country_type(database_type) ==> exists|i: int|
            0 <= i && i + 7 <= database_type.len() && text::same_ignoring_case(
                #[trigger] database_type.subrange(i, i + 7),
                "country"@,
            ),
{
    reveal_strlit("country");
    assert(text::lower_text("country"@) =~= "country"@);
    if text::same_ignoring_case(word, "country"@) {
        assert(text::lower_text(before + word + after) =~= text::lower_text(before)
            + text::lower_text(word) + text::lower_text(after));
        text::law_a_text_contains_its_parts(
            text::lower_text(before),
            "country"@,
            text::lower_text(after),
        );
    }
    if country_type(database_type) {
        let lower = text::lower_text(database_type);
        let i = choose|i: int|
            0 <= i <= lower.len() - 7 && #[trigger] lower.subrange(i, i + 7) == "country"@;
        assert(text::lower_text(database_type.subrange(i, i + 7)) =~= lower.subrange(i, i + 7));
        assert(text::same_ignoring_case(database_type.subrange(i, i + 7), "country"@));
    }
}

/// A database is accepted only where it opens, its type is one of countries, and
/// what is written to disk is what was opened. One of another type is refused with
/// that type in lower case; only one that may be refused at all is refused as none.
pub proof fn law_which_databases_are_accepted(
    content: Seq<u8>,
    r: Result<Release, GeoipUpdateError>,
)
    requires
        database_verdict(content, r),
    ensures
        r matches Ok(release) ==> release.content@ == content && release.reader.content() == content
            && geoip::mmdb_metadata(content) is Some && country_type(
            (geoip::mmdb_metadata(content)->0).0,
        ),
        r matches Err(error) ==> error is InvalidDatabase || error is UnexpectedDatabaseType,
        r matches Err(GeoipUpdateError::InvalidDatabase(_)) ==> geoip::may_be_refused(content),
        r matches Err(GeoipUpdateError::UnexpectedDatabaseType(t)) ==> geoip::mmdb_metadata(content)
            is Some && !country_type((geoip::mmdb_metadata(content)->0).0) && t@
            == text::lower_text((geoip::mmdb_metadata(content)->0).0),
{
}

/// A download from DB-IP with a published checksum is refused as a mismatch if and
/// only if its SHA-1 digest is another; without one nothing is compared. Then it is
/// what it decompresses to that counts.
pub proof fn law_what_a_release_comes_to(
    gz: Seq<u8>,
    sidecar: Option<Seq<char>>,
    r: Result<Release, GeoipUpdateError>,
)
    requires
        release_verdict(gz, sidecar, r),
    ensures
        (r matches Err(error) && error is ChecksumMismatch) <==> (sidecar matches Some(expected)
            && !digest_agrees(expected, text::hex_text(digest::sha1_digest(gz)))),
        r matches Ok(release) ==> geoip_download::unpacked(gz, 268_435_456) == Ok::<
            Seq<u8>,
            Seq<char>,
        >(release.content@) && database_verdict(release.content@, r),
        r matches Err(GeoipUpdateError::Decompress(why)) ==> geoip_download::unpacked(
            gz,
            268_435_456,
        ) == Err::<Seq<u8>, Seq<char>>(why@),
        r matches Err(error) && (error is InvalidDatabase || error is UnexpectedDatabaseType) ==> (
        geoip_download::unpacked(gz, 268_435_456) matches Ok(content) && database_verdict(
            content,
            r,
        )),
        r matches Err(error) ==> error is ChecksumMismatch || error is Decompress || error
            is InvalidDatabase || error is UnexpectedDatabaseType,
{
}

/// A download from MaxMind is checked by its SHA-256 digest, and is then what its
/// archive gives.
pub proof fn law_what_a_maxmind_release_comes_to(
    gz: Seq<u8>,
    sidecar: Option<Seq<char>>,
    r: Result<Release, GeoipUpdateError>,
)
    requires
        maxmind_verdict(gz, sidecar, r),
    ensures
        (r matches Err(error) && error is MaxmindChecksumMismatch) <==> (sidecar matches Some(
            expected,
        ) && !digest_agrees(expected, text::hex_text(digest::sha256_digest(gz)))),
        r matches Ok(release) ==> geoip_download::unpacked_archive(gz, 268_435_456) == Ok::<
            Seq<u8>,
            Seq<char>,
        >(release.content@) && database_verdict(release.content@, r),
        r matches Err(GeoipUpdateError::MaxmindArchiveInvalid(why))
            ==> geoip_download::unpacked_archive(gz, 268_435_456) == Err::<Seq<u8>, Seq<char>>(why@),
        r matches Err(error) && (error is InvalidDatabase || error is UnexpectedDatabaseType) ==> (
        geoip_download::unpacked_archive(gz, 268_435_456) matches Ok(content) && database_verdict(
            content,
            r,
        )),
        r matches Err(error) ==> error is MaxmindChecksumMismatch || error is MaxmindArchiveInvalid
            || error is InvalidDatabase || error is UnexpectedDatabaseType,
{
}

/// What a refresh says of MaxMind's credentials: that they are accepted where it
/// succeeded, that they are refused where MaxMind said so, and nothing new where it
/// failed otherwise. Of another source nothing is said.
pub proof fn law_what_a_refresh_says_of_credentials(
    source: GeoipSource,
    known: MaxmindHealth,
    outcome: Result<(), GeoipUpdateError>,
)
    ensures
        source is DbIpLite ==> health_after(source, known, outcome) == MaxmindHealth::NotApplicable,
        source is Maxmind && outcome is Ok ==> health_after(source, known, outcome)
            == MaxmindHealth::Accepted,
        source is Maxmind && outcome is Err && outcome->Err_0 is MaxmindAuthRejected
            ==> health_after(source, known, outcome) == MaxmindHealth::AuthRejected,
        source is Maxmind && outcome is Err && !(outcome->Err_0 is MaxmindAuthRejected)
            ==> health_after(source, known, outcome) == known,
{
}

/// Two sources are the same where neither is MaxMind, or where both are with the
/// same account and the same key.
pub proof fn law_which_sources_are_the_same(a: GeoipSource, b: GeoipSource)
    ensures
        same_source_as(a, b) ==> (a is Maxmind <==> b is Maxmind),
        a is DbIpLite && b is DbIpLite ==> same_source_as(a, b),
        a is Maxmind && b is Maxmind ==> (same_source_as(a, b) <==> (a->Maxmind_0).account_id@ == (
        b->Maxmind_0).account_id@ && (a->Maxmind_0).license_key@ == (b->Maxmind_0).license_key@),
{
}

/// The release that is tried second is that of the month before the one of the
/// moment.
pub proof fn law_which_release_is_tried_second(
    unix_seconds: u64,
    url: Seq<char>,
    year: int,
    month: int,
)
    requires
        geoip_download::in_month(unix_seconds, year, month),
        unix_seconds <= 67_651_200_000_000_000,
        1 <= year,
    ensures
        previous_release(unix_seconds, url) <==> url == if month == 1 {
            geoip_download::release_url((year - 1) as nat, 12)
        } else {
            geoip_download::release_url(year as nat, (month - 1) as nat)
        },
{
    let days = unix_seconds as int / 86_400;
    geoip_download::law_years_are_held(days, year, month);
    assert forall|y: int, m: int| #[trigger] geoip_download::in_month(unix_seconds, y, m) implies y
        == year && m == month by {
        geoip_download::law_years_are_held(days, y, m);
        geoip_download::law_a_day_has_one_month(days, year, month, y, m);
    }
}

} // verus!
