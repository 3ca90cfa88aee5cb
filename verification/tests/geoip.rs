use dnsqb_service::admin::HealthGeoip;
use dnsqb_service::app_state::{
    AppState, CacheState, GeoipInit, OverridesState, PersistTarget, RuntimeInit,
};
use dnsqb_service::config::{CacheConfig, TimeoutConfig, TimeoutMode};
use dnsqb_service::digest::{sha1_hex, sha1_hex_prefix, sha256_hex};
use dnsqb_service::geoip::{blocking_country, country_is_blocked, GeoipError, GeoipReader, IpAddr};
use dnsqb_service::geoip_credentials::{LicenseKey, MaxmindCredentials};
use dnsqb_service::geoip_download::{MAXMIND_EDITION, MAX_GEOIP_COMPRESSED_BYTES};
use dnsqb_service::geoip_updater::{
    after_attempt, check_database_type, check_download_status, check_maxmind_credentials,
    checksum_matches, checksum_matches_sha256, checksum_sidecar, finish_release, initial_health,
    looks_like_sha1_hex, looks_like_sha256_hex, maxmind_checksum_sidecar, refresh_health,
    refresh_once, status_is_error, try_one_maxmind_release, try_one_release, Attempt, BoundedBody, Release,
    GeoipSource, GeoipState, GeoipUpdateError, MaxmindHealth, ProbeReply, RefreshStep,
};
use dnsqb_service::overrides::OverrideLists;
use dnsqb_service::query_log::QueryLog;
use std::io::Write;

const BUILD_EPOCH: u64 = 1_540_000_000;
const AUG_29_2026_UNIX: u64 = 1_787_961_600;

fn text(s: &str) -> Vec<u8> {
    let mut out = Vec::new();
    let len = u8::try_from(s.len()).unwrap_or(0);
    if len < 29 {
        out.push(0x40 | len);
    } else {
        out.push(0x40 | 29);
        out.push(len - 29);
    }
    out.extend_from_slice(s.as_bytes());
    out
}

fn map(pairs: &[(&str, Vec<u8>)]) -> Vec<u8> {
    let mut out = vec![0xe0 | u8::try_from(pairs.len()).unwrap_or(0)];
    for (name, value) in pairs {
        out.extend(text(name));
        out.extend_from_slice(value);
    }
    out
}

fn number16(n: u16) -> Vec<u8> {
    let mut out = vec![0xa2];
    out.extend(n.to_be_bytes());
    out
}

fn number32(n: u32) -> Vec<u8> {
    let mut out = vec![0xc4];
    out.extend(n.to_be_bytes());
    out
}

fn number64(n: u64) -> Vec<u8> {
    let mut out = vec![0x08, 0x02];
    out.extend(n.to_be_bytes());
    out
}

#[derive(Clone, Copy)]
enum Branch {
    Nothing,
    Node(usize),
    Data(usize),
}

/// A database of IPv4 addresses that knows these countries.
fn database(database_type: &str, countries: &[([u8; 4], &str)]) -> Vec<u8> {
    let mut nodes = vec![[Branch::Nothing; 2]];
    let mut data = Vec::new();
    for (address, code) in countries {
        let offset = data.len();
        data.extend(map(&[("country", map(&[("iso_code", text(code))]))]));
        let bits = u32::from_be_bytes(*address);
        let mut at = 0;
        for i in 0..32 {
            let bit = usize::from(bits & (0x8000_0000 >> i) != 0);
            if i == 31 {
                nodes[at][bit] = Branch::Data(offset);
            } else if let Branch::Node(next) = nodes[at][bit] {
                at = next;
            } else {
                let next = nodes.len();
                nodes.push([Branch::Nothing; 2]);
                nodes[at][bit] = Branch::Node(next);
                at = next;
            }
        }
    }
    let count = nodes.len();
    let mut out = Vec::new();
    for node in &nodes {
        for branch in node {
            let value = match *branch {
                Branch::Nothing => count,
                Branch::Node(next) => next,
                Branch::Data(offset) => count + 16 + offset,
            };
            out.extend(&u32::try_from(value).unwrap_or(0).to_be_bytes()[1..]);
        }
    }
    out.extend([0u8; 16]);
    out.extend(data);
    out.extend(b"\xab\xcd\xefMaxMind.com");
    out.extend(map(&[
        ("binary_format_major_version", number16(2)),
        ("binary_format_minor_version", number16(0)),
        ("build_epoch", number64(BUILD_EPOCH)),
        ("database_type", text(database_type)),
        ("description", map(&[("en", text("a small test database"))])),
        ("ip_version", number16(4)),
        ("languages", vec![0x01, 0x04, 0x42, b'e', b'n']),
        ("node_count", number32(u32::try_from(count).unwrap_or(0))),
        ("record_size", number16(24)),
    ]));
    out
}

const SE: [u8; 4] = [89, 160, 20, 112];
const GB: [u8; 4] = [81, 2, 69, 160];

fn fixture_bytes() -> Vec<u8> {
    database("GeoIP2-Country", &[(SE, "SE"), (GB, "GB")])
}

fn open_fixture() -> GeoipReader {
    match GeoipReader::from_bytes(fixture_bytes()) {
        Ok(reader) => reader,
        Err(GeoipError::Open(err)) => panic!("fixture must load: {err}"),
    }
}

fn se_ip() -> IpAddr {
    IpAddr::V4(SE)
}

fn gb_ip() -> IpAddr {
    IpAddr::V4(GB)
}

fn unmatched_ip() -> IpAddr {
    // TEST-NET-1 (RFC 5737) - reserved for documentation, never assigned.
    IpAddr::V4([192, 0, 2, 1])
}

#[test]
fn country_finds_the_known_fixture_address() {
    let reader = open_fixture();
    assert_eq!(reader.country(&se_ip()), Some("SE".to_string()));
}

#[test]
fn build_time_reports_a_plausible_past_date_not_the_current_moment() {
    let reader = open_fixture();
    let Some(built) = reader.build_time() else {
        panic!("test fixture must carry a build_epoch");
    };
    let Ok(now) = std::time::SystemTime::now().duration_since(std::time::UNIX_EPOCH) else {
        panic!("the clock must be past the epoch");
    };
    assert!(now.as_secs() > built);
    assert!(now.as_secs() - built > 60 * 60 * 24 * 30);
    assert_eq!(built, BUILD_EPOCH);
}

#[test]
fn country_returns_none_for_an_address_outside_the_database() {
    let reader = open_fixture();
    assert_eq!(reader.country(&unmatched_ip()), None);
}

#[test]
fn country_returns_none_for_an_ipv6_address_against_this_ipv4_only_fixture() {
    let reader = open_fixture();
    // 2001:db8::1
    let ip = IpAddr::V6([0x20, 0x01, 0x0d, 0xb8, 0, 0, 0, 0, 0, 0, 0, 0, 0, 0, 0, 1]);
    assert_eq!(reader.country(&ip), None);
}

#[test]
fn bytes_that_are_no_database_are_an_error_not_a_panic() {
    assert!(GeoipReader::from_bytes(b"no database".to_vec()).is_err());
    assert!(GeoipReader::from_bytes(Vec::new()).is_err());
}

#[test]
fn a_database_tells_its_type() {
    let reader = open_fixture();
    assert_eq!(reader.database_type(), "GeoIP2-Country");
}

#[test]
fn blocking_country_is_none_on_an_empty_blocked_list_even_for_a_matching_ip() {
    let reader = open_fixture();
    assert_eq!(blocking_country(Some(&reader), &[], &[se_ip()]), None);
}

#[test]
fn blocking_country_is_none_with_no_database_loaded_even_for_a_configured_country() {
    assert_eq!(
        blocking_country(None, &["SE".to_string()], &[se_ip()]),
        None
    );
}

#[test]
fn blocking_country_is_some_when_a_non_first_ip_matches_a_blocked_country() {
    let reader = open_fixture();
    let ips = [unmatched_ip(), se_ip()];
    assert_eq!(
        blocking_country(Some(&reader), &["SE".to_string()], &ips),
        Some("SE".to_string())
    );
}

#[test]
fn blocking_country_is_none_when_no_ip_matches_any_blocked_country() {
    let reader = open_fixture();
    assert_eq!(
        blocking_country(
            Some(&reader),
            &["DE".to_string()],
            &[se_ip(), unmatched_ip()]
        ),
        None
    );
}

#[test]
fn blocking_country_reports_the_databases_own_casing_regardless_of_the_configured_entrys_case() {
    let reader = open_fixture();
    assert_eq!(
        blocking_country(Some(&reader), &["se".to_string()], &[se_ip()]),
        Some("SE".to_string())
    );
    assert_eq!(
        blocking_country(Some(&reader), &["Se".to_string()], &[se_ip()]),
        Some("SE".to_string())
    );
}

#[test]
fn blocking_country_reports_the_first_matching_ips_country_when_two_ips_match_different_countries()
{
    let reader = open_fixture();
    let blocked = ["GB".to_string(), "SE".to_string()];
    assert_eq!(
        blocking_country(Some(&reader), &blocked, &[se_ip(), gb_ip()]),
        Some("SE".to_string())
    );
    assert_eq!(
        blocking_country(Some(&reader), &blocked, &[gb_ip(), se_ip()]),
        Some("GB".to_string())
    );
}

#[test]
fn blocked_codes_are_found_in_any_case() {
    let blocked = ["gb".to_string(), "SE".to_string()];
    assert!(country_is_blocked(&blocked, "GB"));
    assert!(!country_is_blocked(&blocked, "DE"));
}

#[test]
fn checksum_matches_is_case_and_whitespace_insensitive() {
    let hex = sha1_hex(b"hello geoip");
    assert!(checksum_matches(&hex.to_ascii_uppercase(), b"hello geoip"));
    assert!(checksum_matches(&format!(" {hex}\n"), b"hello geoip"));
}

#[test]
fn digests_have_their_published_values() {
    assert_eq!(
        sha1_hex(b"abc"),
        "a9993e364706816aba3e25717850c26c9cd0d89d"
    );
    assert_eq!(sha1_hex_prefix(b"abc", 8), "a9993e364706816a");
    assert_eq!(
        sha256_hex(b"abc"),
        "ba7816bf8f01cfea414140de5dae2223b00361a396177a9cb410ff61f20015ad"
    );
}

#[test]
fn looks_like_sha1_hex_accepts_a_real_digest() {
    assert!(looks_like_sha1_hex(&sha1_hex(b"anything")));
}

#[test]
fn looks_like_sha1_hex_rejects_an_html_error_page_body() {
    assert!(!looks_like_sha1_hex("<!doctype"));
    assert!(!looks_like_sha1_hex(""));
    assert!(!looks_like_sha1_hex("not-even-close-to-hex"));
    // Right length, wrong alphabet.
    assert!(!looks_like_sha1_hex(&"g".repeat(40)));
}

#[test]
fn checksum_matches_rejects_a_wrong_digest() {
    let hex = sha1_hex(b"hello geoip");
    assert!(!checksum_matches(&hex, b"something else entirely"));
}

#[test]
fn looks_like_sha256_hex_accepts_a_real_digest() {
    assert!(looks_like_sha256_hex(&sha256_hex(b"anything")));
}

#[test]
fn looks_like_sha256_hex_rejects_wrong_length_or_alphabet() {
    assert!(!looks_like_sha256_hex("<!doctype"));
    assert!(!looks_like_sha256_hex(""));
    // A real SHA-1 digest is 40 hex chars - right alphabet, wrong length.
    assert!(!looks_like_sha256_hex(&sha1_hex(b"anything")));
    // Right length, wrong alphabet.
    assert!(!looks_like_sha256_hex(&"g".repeat(64)));
}

#[test]
fn checksum_matches_sha256_is_case_and_whitespace_insensitive() {
    let hex = sha256_hex(b"hello maxmind");
    assert!(checksum_matches_sha256(
        &hex.to_ascii_uppercase(),
        b"hello maxmind"
    ));
    assert!(checksum_matches_sha256(
        &format!("  {hex}\n"),
        b"hello maxmind"
    ));
}

#[test]
fn checksum_matches_sha256_rejects_a_wrong_digest() {
    let hex = sha256_hex(b"hello maxmind");
    assert!(!checksum_matches_sha256(&hex, b"something else entirely"));
}

#[test]
fn a_sidecar_is_the_first_word_of_a_good_reply() {
    let hex = sha1_hex(b"release");
    let body = format!("{hex}  dbip-country-lite.mmdb.gz\n");
    assert_eq!(checksum_sidecar(200, &body), Some(hex));
    assert_eq!(checksum_sidecar(404, &body), None);
    assert_eq!(checksum_sidecar(200, "<!doctype html>"), None);
    assert_eq!(checksum_sidecar(200, ""), None);
    let long = sha256_hex(b"release");
    assert_eq!(
        maxmind_checksum_sidecar(200, &format!("{long}  archive.tar.gz")),
        Some(long.clone())
    );
    assert_eq!(maxmind_checksum_sidecar(500, &long), None);
}

fn gzip(data: &[u8]) -> Vec<u8> {
    let mut encoder = flate2::write::GzEncoder::new(Vec::new(), flate2::Compression::default());
    let Ok(()) = encoder.write_all(data) else {
        panic!("in-memory gzip write cannot fail");
    };
    let Ok(bytes) = encoder.finish() else {
        panic!("in-memory gzip finish cannot fail");
    };
    bytes
}

fn archive(data: &[u8]) -> Vec<u8> {
    let mut builder = tar::Builder::new(Vec::new());
    let mut header = tar::Header::new_gnu();
    header.set_size(u64::try_from(data.len()).unwrap_or(0));
    header.set_mode(0o644);
    header.set_cksum();
    let Ok(()) = builder.append_data(&mut header, "dir/GeoLite2-Country.mmdb", data) else {
        panic!("in-memory tar append cannot fail");
    };
    let Ok(tar_bytes) = builder.into_inner() else {
        panic!("in-memory tar finish cannot fail");
    };
    gzip(&tar_bytes)
}

#[test]
fn a_good_release_is_opened() {
    let gz = gzip(&fixture_bytes());
    assert!(try_one_release(&gz, None).is_ok());
    let Ok(release) = try_one_release(&gz, Some(&sha1_hex(&gz))) else {
        panic!("the checksum agrees");
    };
    assert_eq!(release.reader.country(&gb_ip()), Some("GB".to_string()));
    assert_eq!(release.content, fixture_bytes());
    let targz = archive(&fixture_bytes());
    assert!(try_one_maxmind_release(&targz, Some(&sha256_hex(&targz))).is_ok());
}

#[test]
fn each_fault_of_a_release_is_told_apart() {
    let gz = gzip(&fixture_bytes());
    assert!(matches!(
        try_one_release(&gz, Some(&sha1_hex(b"else"))),
        Err(GeoipUpdateError::ChecksumMismatch)
    ));
    assert!(matches!(
        try_one_release(b"no gzip", None),
        Err(GeoipUpdateError::Decompress(_))
    ));
    assert!(matches!(
        try_one_release(&gzip(b"no database"), None),
        Err(GeoipUpdateError::InvalidDatabase(GeoipError::Open(_)))
    ));
    let city = gzip(&database("GeoIP2-City", &[(SE, "SE")]));
    assert!(
        matches!(try_one_release(&city, None), Err(GeoipUpdateError::UnexpectedDatabaseType(t)) if t == "geoip2-city")
    );
    assert!(matches!(
        try_one_maxmind_release(&archive(&fixture_bytes()), Some(&sha256_hex(b"else"))),
        Err(GeoipUpdateError::MaxmindChecksumMismatch)
    ));
    assert!(matches!(
        try_one_maxmind_release(b"no archive", None),
        Err(GeoipUpdateError::MaxmindArchiveInvalid(_))
    ));
}

#[test]
fn a_country_database_is_known_by_its_type_in_any_case() {
    assert!(check_database_type("DBIP-Country-Lite").is_ok());
    assert!(check_database_type("GEOLITE2-COUNTRY").is_ok());
    assert!(check_database_type("GeoLite2-City").is_err());
}

fn release() -> Release {
    Release {
        reader: open_fixture(),
        content: fixture_bytes(),
    }
}

#[test]
fn a_refresh_that_fails_keeps_the_database_in_use() {
    let mut state = GeoipState::default();
    assert!(state.reader.is_none());
    assert!(finish_release(&mut state, Ok(release()), Ok(())).is_ok());
    assert_eq!(state.updated_at, Some(BUILD_EPOCH));
    let failed = finish_release(
        &mut state,
        Ok(release()),
        Err("disk full".to_string()),
    );
    assert!(matches!(failed, Err(GeoipUpdateError::Io(why)) if why == "disk full"));
    let refused = finish_release(&mut state, Err(GeoipUpdateError::ChecksumMismatch), Ok(()));
    assert!(matches!(refused, Err(GeoipUpdateError::ChecksumMismatch)));
    assert!(state.reader.is_some());
    assert_eq!(state.updated_at, Some(BUILD_EPOCH));
}

#[test]
fn a_download_is_cut_off_at_its_limit() {
    let mut body = BoundedBody::new();
    assert!(body.extend(b"one").is_ok());
    assert!(body.extend(b"two").is_ok());
    let chunk = vec![0u8; usize::try_from(MAX_GEOIP_COMPRESSED_BYTES).unwrap_or(0) - 5];
    assert!(matches!(
        body.extend(&chunk),
        Err(GeoipUpdateError::CompressedTooLarge)
    ));
    let mut short = BoundedBody::new();
    assert!(short.extend(b"one").is_ok());
    assert!(short.extend(b"two").is_ok());
    assert_eq!(short.into_bytes(), b"onetwo");
}

#[test]
fn a_refused_login_is_told_from_other_failures() {
    assert!(check_download_status(200).is_ok());
    assert!(matches!(
        check_download_status(401),
        Err(GeoipUpdateError::MaxmindAuthRejected)
    ));
    assert!(matches!(
        check_download_status(500),
        Err(GeoipUpdateError::MaxmindDownloadFailed)
    ));
    assert!(status_is_error(404));
    assert!(status_is_error(599));
    assert!(status_is_error(302));
    assert!(status_is_error(304));
    assert!(status_is_error(199));
    assert!(!status_is_error(206));
    assert!(matches!(
        check_download_status(304),
        Err(GeoipUpdateError::MaxmindDownloadFailed)
    ));
}

fn maxmind() -> GeoipSource {
    GeoipSource::Maxmind(MaxmindCredentials {
        account_id: "acct".to_string(),
        license_key: LicenseKey::new("key".to_string()),
    })
}

#[test]
fn a_refresh_tries_this_month_and_the_one_before() {
    let source = GeoipSource::DbIpLite;
    let first = refresh_once(&source, AUG_29_2026_UNIX);
    assert!(first.ends_with("dbip-country-lite-2026-08.mmdb.gz"));
    let step = after_attempt(
        &source,
        AUG_29_2026_UNIX,
        Attempt::First,
        Some(Err(GeoipUpdateError::ChecksumMismatch)),
    );
    assert!(
        matches!(step, RefreshStep::Download(url) if url.ends_with("dbip-country-lite-2026-07.mmdb.gz"))
    );
    let step = after_attempt(&source, AUG_29_2026_UNIX, Attempt::Second, None);
    assert!(matches!(
        step,
        RefreshStep::Finished(Err(GeoipUpdateError::NoReleaseFound(inner)))
            if matches!(*inner, GeoipUpdateError::Timeout)
    ));
    let step = after_attempt(&source, AUG_29_2026_UNIX, Attempt::First, Some(Ok(())));
    assert!(matches!(step, RefreshStep::Finished(Ok(()))));
}

#[test]
fn maxmind_has_one_release_only() {
    let source = maxmind();
    let url = refresh_once(&source, AUG_29_2026_UNIX);
    assert!(url.contains(MAXMIND_EDITION));
    let step = after_attempt(&source, AUG_29_2026_UNIX, Attempt::First, None);
    assert!(matches!(
        step,
        RefreshStep::Finished(Err(GeoipUpdateError::Timeout))
    ));
}

#[test]
fn only_maxminds_own_word_changes_what_is_known_of_the_credentials() {
    let source = maxmind();
    let pending = initial_health(&source);
    assert_eq!(pending, MaxmindHealth::Pending);
    assert_eq!(
        refresh_health(&source, pending, &Err(GeoipUpdateError::Timeout)),
        MaxmindHealth::Pending
    );
    assert_eq!(
        refresh_health(&source, pending, &Err(GeoipUpdateError::MaxmindAuthRejected)),
        MaxmindHealth::AuthRejected
    );
    assert_eq!(
        refresh_health(&source, MaxmindHealth::AuthRejected, &Ok(())),
        MaxmindHealth::Accepted
    );
    assert_eq!(
        refresh_health(&GeoipSource::DbIpLite, pending, &Ok(())),
        MaxmindHealth::NotApplicable
    );
}

#[test]
fn a_probe_says_whether_credentials_are_good() {
    assert!(check_maxmind_credentials(ProbeReply::Status(200)).is_ok());
    assert!(matches!(
        check_maxmind_credentials(ProbeReply::Status(401)),
        Err(GeoipUpdateError::MaxmindAuthRejected)
    ));
    assert!(matches!(
        check_maxmind_credentials(ProbeReply::Status(503)),
        Err(GeoipUpdateError::MaxmindDownloadFailed)
    ));
}

fn state_with_geoip_database(database: GeoipState) -> AppState<(), (), (), ()> {
    let timeout = TimeoutConfig {
        mode: TimeoutMode::FailOpen,
        duration_nanos: 2_000_000_000,
    };
    AppState::new(
        (),
        OverridesState {
            lists: OverrideLists::from_entries(Vec::new()),
            invalid: Vec::new(),
        },
        RuntimeInit::defaults(timeout, &[]),
        CacheState {
            cache: (),
            config: CacheConfig::default(),
        },
        GeoipInit {
            database,
            blocked_countries: Vec::new(),
            source: GeoipSource::DbIpLite,
        },
        QueryLog::default(),
        PersistTarget {
            port: 8443,
            persist_query_log: false,
            persist_cache: false,
            paths: None,
        },
        (),
        (),
    )
}

#[test]
fn serve_admin_geoip_reports_the_loaded_databases_build_time() {
    let body = state_with_geoip_database(GeoipState {
        reader: Some(open_fixture()),
        updated_at: Some(1_700_000_000),
    })
    .geoip_view(true);
    assert!(body.database_loaded);
    assert_eq!(body.database_built_at_ms, Some(1_700_000_000_000));
}

#[test]
fn serve_admin_geoip_reports_a_loaded_database_with_no_known_build_time() {
    let body = state_with_geoip_database(GeoipState {
        reader: Some(open_fixture()),
        updated_at: None,
    })
    .geoip_view(true);
    assert!(
        body.database_loaded,
        "a loaded reader must report database_loaded even without a known build time"
    );
    assert_eq!(body.database_built_at_ms, None);
    assert_eq!(body.database_type.as_deref(), Some("GeoIP2-Country"));
}

#[test]
fn a_new_database_comes_into_use() {
    let mut state = state_with_geoip_database(GeoipState::default());
    assert_eq!(state.serve_health().geoip, HealthGeoip::Absent);
    state.update_geoip(GeoipState {
        reader: Some(open_fixture()),
        updated_at: None,
    });
    assert_eq!(state.serve_health().geoip, HealthGeoip::Loaded);
}
