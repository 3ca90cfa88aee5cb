use dnsqb_service::geoip_download::{
    candidate_download_urls, checksum_sidecar_url, civil_year_month, decompress_bounded,
    extract_mmdb_from_tar_gz,
    maxmind_download_url, pick_database, previous_month, unpack, unpack_archive, within_limit,
    year_month, ArchiveError, DecompressError, DB_IP_BASE_URL, MAXMIND_EDITION,
    MAX_GEOIP_DECOMPRESSED_BYTES,
};
use std::io::Write;

/// 2026-08-29T00:00:00Z.
const AUG_29_2026_UNIX: u64 = 1_787_961_600;
/// 2024-02-29T00:00:00Z, a leap day.
const FEB_29_2024_UNIX: u64 = 1_709_164_800;
/// 2024-03-01T00:00:00Z, the next day.
const MAR_01_2024_UNIX: u64 = 1_709_251_200;
/// 2000-01-01T00:00:00Z.
const JAN_01_2000_UNIX: u64 = 946_684_800;

#[test]
fn year_month_matches_known_dates() {
    assert_eq!(year_month(AUG_29_2026_UNIX), (2026, 8));
    assert_eq!(year_month(FEB_29_2024_UNIX), (2024, 2));
    assert_eq!(year_month(MAR_01_2024_UNIX), (2024, 3));
    assert_eq!(year_month(JAN_01_2000_UNIX), (2000, 1));
}

#[test]
fn months_end_where_the_next_begins() {
    assert_eq!(year_month(JAN_01_2000_UNIX - 1), (1999, 12));
    assert_eq!(year_month(MAR_01_2024_UNIX - 1), (2024, 2));
    assert_eq!(year_month(0), (1970, 1));
    // 2100-02-28T23:59:59Z and the first second of March: no leap day.
    assert_eq!(year_month(4_107_542_399), (2100, 2));
    assert_eq!(year_month(4_107_542_400), (2100, 3));
}

#[test]
fn days_before_the_epoch_have_their_months_too() {
    assert_eq!(civil_year_month(0), (1970, 1));
    assert_eq!(civil_year_month(-1), (1969, 12));
    assert_eq!(civil_year_month(-719_468), (0, 3));
    assert_eq!(civil_year_month(-719_469), (0, 2));
    assert_eq!(civil_year_month(-719_528), (0, 1));
    assert_eq!(civil_year_month(-719_529), (-1, 12));
    assert_eq!(civil_year_month(i64::MIN).0, i32::MAX);
    assert_eq!(civil_year_month(i64::MAX).0, i32::MAX);
}

#[test]
fn months_follow_in_order_and_repeat_after_400_years() {
    let mut run = 0;
    for day in -150_000..150_000_i64 {
        let (year, month) = civil_year_month(day);
        assert_eq!(civil_year_month(day + 146_097), (year + 400, month));
        run += 1;
        let next = civil_year_month(day + 1);
        if next != (year, month) {
            let after = if month == 12 {
                (year + 1, 1)
            } else {
                (year, month + 1)
            };
            assert_eq!(next, after);
            assert!(run <= 31 && (run >= 28 || day < -149_969));
            run = 0;
        }
    }
}

#[test]
fn previous_month_wraps_the_year_at_january() {
    assert_eq!(previous_month(2026, 1), (2025, 12));
    assert_eq!(previous_month(2026, 8), (2026, 7));
}

#[test]
fn candidate_download_urls_are_current_month_then_previous() {
    let urls = candidate_download_urls(AUG_29_2026_UNIX);
    assert_eq!(
        urls,
        [
            format!("{DB_IP_BASE_URL}dbip-country-lite-2026-08.mmdb.gz"),
            format!("{DB_IP_BASE_URL}dbip-country-lite-2026-07.mmdb.gz"),
        ]
    );
}

#[test]
fn candidate_download_urls_wraps_the_year_in_january() {
    // 2026-01-05T00:00:00Z.
    let urls = candidate_download_urls(1_767_571_200);
    assert_eq!(
        urls,
        [
            format!("{DB_IP_BASE_URL}dbip-country-lite-2026-01.mmdb.gz"),
            format!("{DB_IP_BASE_URL}dbip-country-lite-2025-12.mmdb.gz"),
        ]
    );
}

#[test]
fn checksum_sidecar_url_appends_sha1() {
    assert_eq!(
        checksum_sidecar_url("https://download.db-ip.com/free/x.mmdb.gz"),
        "https://download.db-ip.com/free/x.mmdb.gz.sha1"
    );
}

#[test]
fn maxmind_download_url_is_the_modern_permalink() {
    assert_eq!(
        maxmind_download_url(MAXMIND_EDITION, "tar.gz"),
        "https://download.maxmind.com/geoip/databases/GeoLite2-Country/download?suffix=tar.gz"
    );
    assert_eq!(
        maxmind_download_url(MAXMIND_EDITION, "tar.gz.sha256"),
        "https://download.maxmind.com/geoip/databases/GeoLite2-Country/download?suffix=tar.gz.sha256"
    );
    assert!(!maxmind_download_url(MAXMIND_EDITION, "tar.gz").contains("license_key"));
}

fn gzip(data: &[u8]) -> Vec<u8> {
    let mut encoder = flate2::write::GzEncoder::new(Vec::new(), flate2::Compression::default());
    let Ok(()) = encoder.write_all(data) else {
        panic!("in-memory gzip write cannot fail");
    };
    let Ok(bytes) = encoder.finish() else {
        panic!("in-memory gzip finish cannot fail");
    };
    bytes
}

/// A gzipped tar with `members` as `(path, contents)` pairs.
fn tar_gz(members: &[(&str, &[u8])]) -> Vec<u8> {
    let mut builder = tar::Builder::new(Vec::new());
    for (path, contents) in members {
        let mut header = tar::Header::new_gnu();
        header.set_size(u64::try_from(contents.len()).unwrap_or(0));
        header.set_mode(0o644);
        header.set_cksum();
        let Ok(()) = builder.append_data(&mut header, path, *contents) else {
            panic!("in-memory tar append cannot fail");
        };
    }
    let Ok(tar_bytes) = builder.into_inner() else {
        panic!("in-memory tar finish cannot fail");
    };
    gzip(&tar_bytes)
}

#[test]
fn extract_mmdb_picks_the_database_member_past_the_license_decoys() {
    let db = b"\xde\xad\xbe\xef pretend this is an mmdb";
    let archive = tar_gz(&[
        ("GeoLite2-Country_20260830/COPYRIGHT.txt", b"(c) MaxMind"),
        ("GeoLite2-Country_20260830/LICENSE.txt", b"CC BY-SA 4.0"),
        ("GeoLite2-Country_20260830/GeoLite2-Country.mmdb", db),
    ]);
    let Ok(extracted) = extract_mmdb_from_tar_gz(&archive, MAX_GEOIP_DECOMPRESSED_BYTES) else {
        panic!("a well-formed archive with an .mmdb member must extract");
    };
    assert_eq!(extracted, db);
    let Ok(unpacked) = unpack_archive(&archive) else {
        panic!("a well-formed archive with an .mmdb member must extract");
    };
    assert_eq!(unpacked, db);
}

#[test]
fn extract_mmdb_rejects_an_archive_with_no_database_member() {
    let archive = tar_gz(&[("GeoLite2-Country_20260830/LICENSE.txt", b"CC BY-SA 4.0")]);
    assert!(matches!(
        extract_mmdb_from_tar_gz(&archive, MAX_GEOIP_DECOMPRESSED_BYTES),
        Err(ArchiveError::NoDatabaseMember)
    ));
}

#[test]
fn extract_mmdb_rejects_an_oversized_archive() {
    let cap = 2 * 1024;
    let oversized = vec![b'a'; 4 * 1024];
    let archive = tar_gz(&[("dir/GeoLite2-Country.mmdb", &oversized)]);
    let Err(err) = extract_mmdb_from_tar_gz(&archive, cap) else {
        panic!("an oversized archive must be rejected");
    };
    assert!(matches!(err, ArchiveError::TooLarge { max_bytes } if max_bytes == cap));
}

#[test]
fn extract_mmdb_rejects_a_malformed_outer_gzip() {
    assert!(matches!(
        extract_mmdb_from_tar_gz(b"not gzip at all", MAX_GEOIP_DECOMPRESSED_BYTES),
        Err(ArchiveError::Gzip(_))
    ));
}

#[test]
fn extract_mmdb_rejects_a_gzip_that_is_not_a_tar() {
    let not_a_tar = gzip(b"just some plain text, definitely not a tar archive");
    assert!(extract_mmdb_from_tar_gz(&not_a_tar, MAX_GEOIP_DECOMPRESSED_BYTES).is_err());
}

#[test]
fn decompress_bounded_round_trips_a_small_payload() {
    let original = b"hello geoip";
    let Ok(decompressed) = decompress_bounded(&gzip(original), MAX_GEOIP_DECOMPRESSED_BYTES) else {
        panic!("well-formed gzip must decompress");
    };
    assert_eq!(decompressed, original);
    assert_eq!(unpack(&gzip(original)), Ok(original.to_vec()));
}

#[test]
fn decompress_bounded_rejects_malformed_input() {
    assert!(decompress_bounded(b"not gzip at all", MAX_GEOIP_DECOMPRESSED_BYTES).is_err());
    assert!(unpack(b"not gzip at all").is_err());
}

#[test]
fn decompress_bounded_rejects_a_corrupted_crc_trailer() {
    let mut gz = gzip(b"hello geoip");
    let last = gz.len() - 1;
    gz[last] ^= 0xFF;
    assert!(decompress_bounded(&gz, MAX_GEOIP_DECOMPRESSED_BYTES).is_err());
}

#[test]
fn decompress_bounded_rejects_output_over_the_cap() {
    let cap = 16;
    let oversized = vec![b'a'; usize::try_from(cap).unwrap_or(0) + 1];
    let Err(err) = decompress_bounded(&gzip(&oversized), cap) else {
        panic!("oversized payload must be rejected");
    };
    assert!(matches!(err, DecompressError::TooLarge { max_bytes } if max_bytes == cap));
}

#[test]
fn content_of_exactly_the_limit_is_accepted() {
    let content = vec![b'a'; 16];
    assert!(matches!(decompress_bounded(&gzip(&content), 16), Ok(out) if out == content));
    assert!(matches!(
        within_limit(Ok(vec![1, 2, 3]), 2),
        Err(DecompressError::TooLarge { max_bytes: 2 })
    ));
    assert!(
        matches!(within_limit(Err("bad".to_string()), 2), Err(DecompressError::Io(e)) if e == "bad")
    );
}

#[test]
fn the_first_database_of_an_archive_counts() {
    let path = |path: &[u8]| Ok(path.to_vec());
    let paths = [
        path(b"dir/readme"),
        path(b"dir/a.MMDB"),
        path(b"dir/b.mmdb"),
    ];
    assert!(matches!(pick_database(&paths), Ok(1)));
    let broken = [Err("cut off".to_string()), path(b"a.mmdb")];
    assert!(matches!(pick_database(&broken), Err(ArchiveError::Tar(e)) if e == "cut off"));
    let behind = [path(b"a.mmdb"), Err("cut off".to_string())];
    assert!(matches!(pick_database(&behind), Ok(0)));
    let none = [
        path(b".mmdb"),
        path(b"a.mmdb/.."),
        path(b"mmdb"),
        path(b"a.mmdb.txt"),
    ];
    assert!(matches!(
        pick_database(&none),
        Err(ArchiveError::NoDatabaseMember)
    ));
}

#[test]
fn the_first_of_two_databases_is_taken_out() {
    let archive = tar_gz(&[
        ("dir/readme", b"read me"),
        ("dir/first.mmdb", b"first"),
        ("dir/second.mmdb", b"second"),
    ]);
    assert!(
        matches!(extract_mmdb_from_tar_gz(&archive, 1 << 16), Ok(bytes) if bytes == b"first")
    );
}

/// A gzipped tar of one sparse member that is nothing but `len` zeros, none of
/// which is stored, and of a second member.
fn sparse_tar_gz(path: &str, len: u64, second: &str) -> Vec<u8> {
    let mut header = tar::Header::new_gnu();
    let Ok(()) = header.set_path(path) else {
        panic!("a short path fits a header");
    };
    header.set_size(0);
    header.set_mode(0o644);
    header.set_entry_type(tar::EntryType::GNUSparse);
    let octal = format!("{len:011o}\0");
    let Some(gnu) = header.as_gnu_mut() else {
        panic!("the header is a GNU header");
    };
    gnu.realsize.copy_from_slice(octal.as_bytes());
    gnu.sparse[0].offset.copy_from_slice(octal.as_bytes());
    gnu.sparse[0].numbytes.copy_from_slice(b"00000000000\0");
    header.set_cksum();
    let mut builder = tar::Builder::new(Vec::new());
    let Ok(()) = builder.append(&header, std::io::empty()) else {
        panic!("in-memory tar append cannot fail");
    };
    let mut header = tar::Header::new_gnu();
    header.set_size(2);
    header.set_mode(0o644);
    let Ok(()) = builder.append_data(&mut header, second, &b"ok"[..]) else {
        panic!("in-memory tar append cannot fail");
    };
    let Ok(tar_bytes) = builder.into_inner() else {
        panic!("in-memory tar finish cannot fail");
    };
    gzip(&tar_bytes)
}

#[test]
fn a_sparse_member_does_not_get_round_the_limit() {
    let cap = 8 * 1024;
    let fits = sparse_tar_gz("a.mmdb", cap, "readme");
    assert!(
        matches!(extract_mmdb_from_tar_gz(&fits, cap), Ok(bytes) if bytes == vec![0u8; 8 * 1024])
    );
    let longer = sparse_tar_gz("a.mmdb", 1 << 32, "readme");
    assert!(matches!(
        extract_mmdb_from_tar_gz(&longer, cap),
        Err(ArchiveError::TooLarge { max_bytes }) if max_bytes == cap
    ));
    let beside = sparse_tar_gz("readme", 1 << 32, "a.mmdb");
    assert!(matches!(extract_mmdb_from_tar_gz(&beside, cap), Ok(bytes) if bytes == b"ok"));
}

/// The header of a sparse member whose table goes on behind it.
fn extended_sparse_header(size: u64) -> Vec<u8> {
    let mut header = tar::Header::new_gnu();
    let Ok(()) = header.set_path("readme") else {
        panic!("a short path fits a header");
    };
    header.set_size(size);
    header.set_mode(0o644);
    header.set_entry_type(tar::EntryType::GNUSparse);
    let Some(gnu) = header.as_gnu_mut() else {
        panic!("the header is a GNU header");
    };
    gnu.set_is_extended(true);
    gnu.set_real_size(0);
    header.set_cksum();
    header.as_bytes().to_vec()
}

/// A header of the given type with its content, filled up to whole blocks.
fn plain_member(path: &str, kind: tar::EntryType, content: &[u8]) -> Vec<u8> {
    let mut header = tar::Header::new_ustar();
    let Ok(()) = header.set_path(path) else {
        panic!("a short path fits a header");
    };
    header.set_size(u64::try_from(content.len()).unwrap_or(0));
    header.set_mode(0o644);
    header.set_entry_type(kind);
    header.set_cksum();
    let mut bytes = header.as_bytes().to_vec();
    bytes.extend_from_slice(content);
    bytes.resize(bytes.len().div_ceil(512) * 512, 0);
    bytes
}

/// An extension record that gives the next member its size.
fn size_record(size: &str) -> Vec<u8> {
    let mut len = size.len() + 8;
    if format!("{len} size={size}\n").len() != len {
        len += 1;
    }
    let record = format!("{len} size={size}\n");
    assert_eq!(record.len(), len);
    plain_member("x", tar::EntryType::XHeader, record.as_bytes())
}

const CAP: u64 = 64 * 1024;

#[test]
fn a_member_that_would_overflow_the_archive_makes_it_malformed() {
    let database = plain_member("a.mmdb", tar::EntryType::Regular, b"ok");
    let own = [extended_sparse_header(u64::MAX - 1023), vec![0u8; 512]].concat();
    let mut table = vec![0u8; 1024];
    table[504] = 1;
    let later = [extended_sparse_header(u64::MAX - 1535), table].concat();
    let named = [
        size_record("18446744073709549568"),
        extended_sparse_header(0),
        vec![0u8; 512],
    ]
    .concat();
    for overlong in [own, later, named] {
        let before = gzip(&[overlong.clone(), database.clone()].concat());
        assert!(matches!(
            extract_mmdb_from_tar_gz(&before, CAP),
            Err(ArchiveError::Tar(_))
        ));
        let behind = gzip(&[database.clone(), overlong].concat());
        assert!(
            matches!(extract_mmdb_from_tar_gz(&behind, CAP), Ok(bytes) if bytes == b"ok"),
            "what follows the database does not matter"
        );
    }
    let at_1024 = [
        database.clone(),
        extended_sparse_header(u64::MAX - 2047),
        vec![0u8; 512],
    ]
    .concat();
    assert!(
        matches!(extract_mmdb_from_tar_gz(&gzip(&at_1024), CAP), Ok(bytes) if bytes == b"ok"),
        "what follows the database does not matter"
    );
}

#[test]
fn content_that_looks_like_an_overlong_member_does_not_matter() {
    let database = plain_member("a.mmdb", tar::EntryType::Regular, b"ok");
    let content = [
        vec![b'x'; 512],
        extended_sparse_header(u64::MAX - 2047),
        vec![0u8; 512],
    ]
    .concat();
    let readme = plain_member("readme", tar::EntryType::Regular, &content);
    let archive = gzip(&[readme, database].concat());
    assert!(matches!(extract_mmdb_from_tar_gz(&archive, CAP), Ok(bytes) if bytes == b"ok"));
    let own = plain_member("b.mmdb", tar::EntryType::Regular, &content);
    assert!(
        matches!(extract_mmdb_from_tar_gz(&gzip(&own), CAP), Ok(bytes) if bytes == content)
    );
}

#[test]
fn a_size_counts_for_the_member_that_it_is_given_for() {
    let database = plain_member("a.mmdb", tar::EntryType::Regular, b"ok");
    let sparse = [extended_sparse_header(0), vec![0u8; 512]].concat();
    let readme = plain_member(
        "readme",
        tar::EntryType::Regular,
        b"size=18446744073709550592",
    );
    let unrelated = gzip(&[readme, sparse, database.clone()].concat());
    assert!(matches!(extract_mmdb_from_tar_gz(&unrelated, CAP), Ok(bytes) if bytes == b"ok"));
    let overridden = [
        size_record("0"),
        extended_sparse_header(u64::MAX - 2047),
        vec![0u8; 512],
        database,
    ]
    .concat();
    assert!(
        matches!(extract_mmdb_from_tar_gz(&gzip(&overridden), CAP), Ok(bytes) if bytes == b"ok")
    );
}

#[test]
fn an_extended_sparse_member_of_a_plausible_size_is_passed_over() {
    let archive = [
        extended_sparse_header(0),
        vec![0u8; 512],
        plain_member("a.mmdb", tar::EntryType::Regular, b"ok"),
    ]
    .concat();
    assert!(matches!(
        extract_mmdb_from_tar_gz(&gzip(&archive), CAP),
        Ok(bytes) if bytes == b"ok"
    ));
}

#[test]
fn errors_name_the_limit() {
    assert!(DecompressError::TooLarge { max_bytes: 16 }
        .message()
        .contains("16"));
    assert!(ArchiveError::TooLarge { max_bytes: 2048 }
        .message()
        .contains("2048"));
}
