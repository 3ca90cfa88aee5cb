//! Where the country database is downloaded from, and how it is unpacked.
use std::io::Read;
use vstd::prelude::*;
use vstd::string::*;
use crate::text;

verus! {

/// Where DB-IP serves its free databases.
pub const DB_IP_BASE_URL: &'static str = "https://download.db-ip.com/free/";

/// The edition that is downloaded from MaxMind.
pub const MAXMIND_EDITION: &'static str = "GeoLite2-Country";

/// The longest compressed download that is accepted.
pub const MAX_GEOIP_COMPRESSED_BYTES: u64 = 67_108_864;

/// The longest decompressed database that is accepted.
pub const MAX_GEOIP_DECOMPRESSED_BYTES: u64 = 268_435_456;

/// Days from the first of January of the year 0 to the Unix epoch.
pub const EPOCH_DAYS: u64 = 719_528;

/// Whether a year of the Gregorian calendar has a leap day.
pub open spec fn leap_year(year: int) -> bool {
    year % 4 == 0 && (year % 100 != 0 || year % 400 == 0)
}

/// The days of the years from 0 up to, and without, `year`.
pub open spec fn days_before_year(year: int) -> int {
    365 * year + (year + 3) / 4 - (year + 99) / 100 + (year + 399) / 400
}

/// The days of a month.
pub open spec fn days_in_month(year: int, month: int) -> int {
    if month == 2 {
        if leap_year(year) {
            29
        } else {
            28
        }
    } else if month == 4 || month == 6 || month == 9 || month == 11 {
        30
    } else {
        31
    }
}

/// The days of a year before a month begins.
pub open spec fn days_before_month(year: int, month: int) -> int
    decreases month,
{
    if month <= 1 {
        0
    } else {
        days_before_month(year, month - 1) + days_in_month(year, month - 1)
    }
}

/// The first day of a month, counted from the Unix epoch.
pub open spec fn first_day(year: int, month: int) -> int {
    days_before_year(year) + days_before_month(year, month) - EPOCH_DAYS
}

/// Whether the day `days` after the Unix epoch falls in a month of a year. Days
/// before the epoch are negative.
pub open spec fn falls_in(days: int, year: int, month: int) -> bool {
    1 <= month <= 12 && first_day(year, month) <= days < first_day(year, month) + days_in_month(
        year,
        month,
    )
}

/// How the years add up.
pub proof fn law_years_add_up(year: int)
    ensures
        days_before_year(0) == 0,
        days_before_year(year + 1) == days_before_year(year) + (if leap_year(year) {
            366int
        } else {
            365int
        }),
        days_before_month(year, 12) + days_in_month(year, 12) == (if leap_year(year) {
            366int
        } else {
            365int
        }),
{
    lemma_month_table(year);
    assert((year + 4) / 4 - (year + 3) / 4 == if year % 4 == 0 {
        1int
    } else {
        0
    });
    assert((year + 100) / 100 - (year + 99) / 100 == if year % 100 == 0 {
        1int
    } else {
        0
    });
    assert((year + 400) / 400 - (year + 399) / 400 == if year % 400 == 0 {
        1int
    } else {
        0
    });
}

/// The calendar month of a day, counted from the Unix epoch.
fn civil_month(days: i64) -> (r: (i128, u32))
    ensures
        falls_in(days as int, r.0 as int, r.1 as int),
{
    let z: i128 = days as i128 + 719_468;
    let (era, doe) = cycles(z);
    let yoe: u32 = (doe - doe / 1460 + doe / 36_524 - doe / 146_096) / 365;
    proof {
        lemma_year_of_era(doe as int, yoe as int);
    }
    let y: i128 = yoe as i128 + era * 400;
    let doy: u32 = doe - (365 * yoe + yoe / 4 - yoe / 100);
    let mp: u32 = (5 * doy + 2) / 153;
    let m: u32 = if mp < 10 {
        mp + 3
    } else {
        mp - 9
    };
    let year: i128 = if m <= 2 {
        y + 1
    } else {
        y
    };
    proof {
        lemma_month(days as int, era as int, yoe as int, doy as int, mp as int);
    }
    (year, m)
}

/// The cycle of 400 years that a day falls in, and which of its days it is.
fn cycles(z: i128) -> (r: (i128, u32))
    requires
        -0x1_0000_0000_0000_0000 < z < 0x1_0000_0000_0000_0000,
    ensures
        z == r.0 * 146_097 + r.1,
        r.1 < 146_097,
        -0x1_0000_0000_0000_0000 < r.0 < 0x1_0000_0000_0000_0000,
{
    let era: i128 = match z.checked_div_euclid(146_097) {
        Some(era) => era,
        None => 0,
    };
    assert(era == z as int / 146_097);
    let doe: u32 = (z - era * 146_097) as u32;
    (era, doe)
}

/// Which year of a cycle of 400 years from March on a day falls in.
proof fn lemma_year_of_era(doe: int, yoe: int)
    requires
        0 <= doe < 146_097,
        yoe == (doe - doe / 1460 + doe / 36_524 - doe / 146_096) / 365,
    ensures
        0 <= yoe < 400,
        0 <= doe - (365 * yoe + yoe / 4 - yoe / 100) <= 365,
        doe - (365 * yoe + yoe / 4 - yoe / 100) == 365 ==> leap_year(yoe + 1),
{
    let century = doe / 36_524;
    let day = doe - 36_524 * century;
    if doe == 146_096 {
        assert(yoe == 399);
    } else {
        assert(0 <= century <= 3);
        let leaps = (24 * century + day) / 1460;
        assert(doe / 1460 == 25 * century + leaps);
        assert(yoe == 100 * century + (day - leaps) / 365);
        lemma_year_of_century(century, day, leaps, (day - leaps) / 365);
    }
}

/// Which year of a century from March on a day falls in.
proof fn lemma_year_of_century(century: int, day: int, leaps: int, year: int)
    requires
        0 <= century <= 3,
        0 <= day < 36_524,
        leaps == (24 * century + day) / 1460,
        year == (day - leaps) / 365,
    ensures
        0 <= year < 100,
        0 <= day - (365 * year + year / 4) <= 365,
        day - (365 * year + year / 4) == 365 ==> year % 4 == 3 && year != 99,
{
    let four = day / 1461;
    let rest = day - 1461 * four;
    assert(0 <= four <= 24);
    assert(leaps == four + (24 * century + four + rest) / 1460);
    if 24 * century + four + rest < 1460 {
        assert(leaps == four);
        assert(year == 4 * four + rest / 365);
        assert(rest / 365 <= 3 || rest == 1460);
    } else {
        assert(leaps == four + 1);
        assert(year == 4 * four + (rest - 1) / 365);
    }
}

/// The days before each month.
proof fn lemma_month_table(year: int)
    ensures
        days_before_month(year, 1) == 0,
        days_before_month(year, 2) == 31,
        days_before_month(year, 3) == 59 + leap_days(year),
        days_before_month(year, 4) == 90 + leap_days(year),
        days_before_month(year, 5) == 120 + leap_days(year),
        days_before_month(year, 6) == 151 + leap_days(year),
        days_before_month(year, 7) == 181 + leap_days(year),
        days_before_month(year, 8) == 212 + leap_days(year),
        days_before_month(year, 9) == 243 + leap_days(year),
        days_before_month(year, 10) == 273 + leap_days(year),
        days_before_month(year, 11) == 304 + leap_days(year),
        days_before_month(year, 12) == 334 + leap_days(year),
{
    reveal_with_fuel(days_before_month, 12);
}

spec fn leap_days(year: int) -> int {
    if leap_year(year) {
        1
    } else {
        0
    }
}

/// Where the first of March of a year stands in its cycle of 400 years.
proof fn lemma_first_of_march(era: int, yoe: int)
    requires
        0 <= yoe < 400,
    ensures
        days_before_year(yoe + era * 400) + 59 + leap_days(yoe + era * 400) == era * 146_097 + 365
            * yoe + yoe / 4 - yoe / 100 + 60,
        leap_year(yoe + era * 400) == leap_year(yoe),
        leap_year(yoe + era * 400 + 1) == leap_year(yoe + 1),
{
    let y = yoe + era * 400;
    lemma_later_cycle(yoe, era);
    lemma_later_cycle(yoe + 1, era);
    assert(yoe / 4 + (if yoe % 4 == 0 {
        0int
    } else {
        1
    }) == (yoe + 3) / 4);
    assert(yoe / 100 + (if yoe % 100 == 0 {
        0int
    } else {
        1
    }) == (yoe + 99) / 100);
    assert((yoe + 399) / 400 == if yoe == 0 {
        0int
    } else {
        1
    });
    assert(yoe % 100 == 0 ==> yoe % 4 == 0);
    assert(yoe % 400 == 0 <==> yoe == 0);
}

/// A year and the one `era` cycles of 400 years later stand alike.
proof fn lemma_later_cycle(year: int, era: int)
    ensures
        (year + era * 400 + 3) / 4 == (year + 3) / 4 + era * 100,
        (year + era * 400 + 99) / 100 == (year + 99) / 100 + era * 4,
        (year + era * 400 + 399) / 400 == (year + 399) / 400 + era,
        leap_year(year + era * 400) == leap_year(year),
{
    let later = year + era * 400;
    assert(later % 4 == year % 4);
    assert(later % 100 == year % 100);
    assert(later % 400 == year % 400);
}

/// The month of a day in the year from March on, and where it stands in the
/// calendar.
proof fn lemma_month(days: int, era: int, yoe: int, doy: int, mp: int)
    requires
        0 <= yoe < 400,
        0 <= doy <= 365,
        doy == 365 ==> leap_year(yoe + 1),
        days + 719_468 == era * 146_097 + 365 * yoe + yoe / 4 - yoe / 100 + doy,
        mp == (5 * doy + 2) / 153,
    ensures
        0 <= mp <= 11,
        mp < 10 ==> falls_in(days, yoe + era * 400, mp + 3),
        mp >= 10 ==> falls_in(days, yoe + era * 400 + 1, mp - 9),
{
    let year = yoe + era * 400;
    lemma_first_of_march(era, yoe);
    lemma_month_table(year);
    lemma_month_table(year + 1);
    law_years_add_up(year);
    let march = days_before_year(year) + 59 + leap_days(year);
    assert(days + EPOCH_DAYS == march + doy);
    assert(0 <= mp <= 11);
    assert((153 * mp + 2) / 5 <= doy < (153 * (mp + 1) + 2) / 5);
    assert(days_before_year(year + 1) == march + 306);
}

/// The years before `later` are at least those before the end of `year`.
proof fn lemma_years_in_order(year: int, later: int)
    requires
        year < later,
    ensures
        days_before_year(year + 1) <= days_before_year(later),
{
    let gap = later - (year + 1);
    assert((later + 99) / 100 <= (year + 1 + 99) / 100 + gap / 100 + 1);
    assert((later + 3) / 4 >= (year + 1 + 3) / 4);
    assert((later + 399) / 400 >= (year + 1 + 399) / 400);
}

/// The days before `later` are at least those before the end of `month`.
proof fn lemma_months_in_order(year: int, month: int, later: int)
    requires
        1 <= month < later,
    ensures
        days_before_month(year, month) + days_in_month(year, month) <= days_before_month(
            year,
            later,
        ),
    decreases later,
{
    if month < later - 1 {
        lemma_months_in_order(year, month, later - 1);
    }
}

/// A later day never falls in an earlier month.
pub proof fn law_months_follow_in_order(
    days: int,
    year: int,
    month: int,
    later: int,
    later_year: int,
    later_month: int,
)
    requires
        days <= later,
        falls_in(days, year, month),
        falls_in(later, later_year, later_month),
    ensures
        year < later_year || (year == later_year && month <= later_month),
{
    lemma_month_table(later_year);
    law_years_add_up(later_year);
    if later_month < 12 {
        lemma_months_in_order(later_year, later_month, 12);
    }
    if later_year < year {
        lemma_years_in_order(later_year, year);
        lemma_not_negative(year, month);
    } else if year == later_year && later_month < month {
        lemma_months_in_order(year, later_month, month);
    }
}

/// A day falls in one month of one year only.
pub proof fn law_a_day_has_one_month(days: int, year: int, month: int, year2: int, month2: int)
    requires
        falls_in(days, year, month),
        falls_in(days, year2, month2),
    ensures
        year == year2,
        month == month2,
{
    law_months_follow_in_order(days, year, month, days, year2, month2);
    law_months_follow_in_order(days, year2, month2, days, year, month);
}

/// Every day falls in a month, also those before the Unix epoch.
pub proof fn law_every_day_has_a_month(days: int)
    ensures
        exists|year: int, month: int| falls_in(days, year, month),
{
    let z = days + 719_468;
    let era = z / 146_097;
    let doe = z % 146_097;
    let yoe = (doe - doe / 1460 + doe / 36_524 - doe / 146_096) / 365;
    lemma_year_of_era(doe, yoe);
    let doy = doe - (365 * yoe + yoe / 4 - yoe / 100);
    lemma_month(days, era, yoe, doy, (5 * doy + 2) / 153);
}

/// A month is a run of 28 to 31 days, and no other day falls in it.
pub proof fn law_a_month_is_a_run_of_days(year: int, month: int)
    requires
        1 <= month <= 12,
    ensures
        28 <= days_in_month(year, month) <= 31,
        forall|days: int| #[trigger]
            falls_in(days, year, month) <==> first_day(year, month) <= days < first_day(
                year,
                month,
            ) + days_in_month(year, month),
{
}

/// The month after a month.
pub open spec fn month_after(year: int, month: int) -> (int, int) {
    if month == 12 {
        (year + 1, 1)
    } else {
        (year, month + 1)
    }
}

/// The next day falls in the same month or in the one right after it.
pub proof fn law_the_next_day(days: int, year: int, month: int)
    requires
        falls_in(days, year, month),
    ensures
        falls_in(days + 1, year, month) || falls_in(
            days + 1,
            month_after(year, month).0,
            month_after(year, month).1,
        ),
{
    law_years_add_up(year);
    let next = month_after(year, month);
    assert(days_before_month(year + 1, 1) == 0);
    assert(first_day(next.0, next.1) == first_day(year, month) + days_in_month(year, month));
}

/// The calendar repeats after 400 years.
pub proof fn law_the_calendar_repeats(days: int, year: int, month: int)
    requires
        falls_in(days, year, month),
    ensures
        falls_in(days + 146_097, year + 400, month),
{
    lemma_later_cycle(year, 1);
    lemma_month_table(year);
    lemma_month_table(year + 400);
}

proof fn lemma_not_negative(year: int, month: int)
    ensures
        days_before_month(year, month) >= 0,
    decreases month,
{
    if month > 1 {
        lemma_not_negative(year, month - 1);
    }
}

/// A year as far as 32 bits hold it; for one that they do not hold, the last
/// that they do.
pub open spec fn held_year(year: int) -> int {
    if i32::MIN <= year <= i32::MAX {
        year
    } else {
        i32::MAX as int
    }
}

/// Whether the day `days` after the Unix epoch is in a month of a year, as far
/// as 32 bits hold the year.
pub open spec fn civil(days: int, year: int, month: int) -> bool {
    exists|y: int| #[trigger] falls_in(days, y, month) && year == held_year(y)
}

/// For two thousand million years before the Unix epoch and as many after it,
/// 32 bits hold the year.
pub proof fn law_years_are_held(days: int, year: int, month: int)
    requires
        -783_000_000_000 <= days <= 783_000_000_000,
    ensures
        civil(days, year, month) <==> falls_in(days, year, month),
{
    assert forall|y: int| #[trigger] falls_in(days, y, month) implies held_year(y) == y by {
        lemma_not_negative(y, month);
        lemma_month_table(y);
        if month < 12 {
            lemma_months_in_order(y, month, 12);
        }
    }
    if civil(days, year, month) {
        let y = choose|y: int| #[trigger] falls_in(days, y, month) && year == held_year(y);
        assert(y == year);
    }
}

/// The calendar month of a day, counted from the Unix epoch.
pub fn civil_year_month(days_since_epoch: i64) -> (r: (i32, u32))
    ensures
        civil(days_since_epoch as int, r.0 as int, r.1 as int),
        1 <= r.1 <= 12,
{
    let (year, month) = civil_month(days_since_epoch);
    let held: i32 = if i32::MIN as i128 <= year && year <= i32::MAX as i128 {
        year as i32
    } else {
        i32::MAX
    };
    assert(falls_in(days_since_epoch as int, year as int, month as int));
    assert(held as int == held_year(year as int));
    (held, month)
}

/// The seconds after the Unix epoch as far as 63 bits hold them.
pub open spec fn held_seconds(unix_seconds: u64) -> int {
    if unix_seconds <= i64::MAX {
        unix_seconds as int
    } else {
        i64::MAX as int
    }
}

/// Whether a moment, in seconds after the Unix epoch, is in a month of a year,
/// as far as 32 bits hold the year.
pub open spec fn in_month(unix_seconds: u64, year: int, month: int) -> bool {
    civil(held_seconds(unix_seconds) / 86_400, year, month)
}

/// The calendar month of a moment, in seconds after the Unix epoch.
pub fn year_month(unix_seconds: u64) -> (r: (i32, u32))
    ensures
        in_month(unix_seconds, r.0 as int, r.1 as int),
        r.0 >= 0,
        1 <= r.1 <= 12,
{
    let held: u64 = if unix_seconds <= i64::MAX as u64 {
        unix_seconds
    } else {
        i64::MAX as u64
    };
    assert(held as int == held_seconds(unix_seconds));
    let month = civil_year_month((held / 86_400) as i64);
    proof {
        lemma_after_the_epoch(unix_seconds, month.0 as int, month.1 as int);
    }
    month
}

/// The month before a month.
pub open spec fn month_before(year: int, month: int) -> (int, int) {
    if month == 1 {
        (year - 1, 12)
    } else {
        (year, month - 1)
    }
}

/// The month before a month.
pub fn previous_month(year: i32, month: u32) -> (r: (i32, u32))
    requires
        month >= 1,
        year > i32::MIN,
    ensures
        month_before(year as int, month as int) == (r.0 as int, r.1 as int),
{
    if month == 1 {
        (year - 1, 12)
    } else {
        (year, month - 1)
    }
}

/// Where the database of a month is found.
pub open spec fn release_url(year: nat, month: nat) -> Seq<char> {
    DB_IP_BASE_URL@ + "dbip-country-lite-"@ + text::zero_padded(text::decimal(year), 4) + "-"@
        + text::zero_padded(text::decimal(month), 2) + ".mmdb.gz"@
}

/// Where the database of a month is found.
fn mmdb_gz_url(year: i32, month: u32) -> (url: String)
    requires
        year >= 0,
    ensures
        url@ == release_url(year as nat, month as nat),
{
    let mut url = DB_IP_BASE_URL.to_owned();
    url.append("dbip-country-lite-");
    let y = text::zero_pad(&text::decimal_chars(year as u64), 4);
    url.append(text::string_of(&y).as_str());
    url.append("-");
    let m = text::zero_pad(&text::decimal_chars(month as u64), 2);
    url.append(text::string_of(&m).as_str());
    url.append(".mmdb.gz");
    url
}

/// Where to look for the database: the release of the current month, then
/// that of the month before.
pub fn candidate_download_urls(unix_seconds: u64) -> (urls: [String; 2])
    ensures
        exists|year: int, month: int| #[trigger]
            in_month(unix_seconds, year, month) && year >= 1 && urls[0]@ == release_url(
                year as nat,
                month as nat,
            ) && urls[1]@ == release_url(
                month_before(year, month).0 as nat,
                month_before(year, month).1 as nat,
            ),
{
    let (year, month) = year_month(unix_seconds);
    proof {
        lemma_after_the_epoch(unix_seconds, year as int, month as int);
    }
    let (prev_year, prev_month) = previous_month(year, month);
    let urls = [mmdb_gz_url(year, month), mmdb_gz_url(prev_year, prev_month)];
    assert(in_month(unix_seconds, year as int, month as int));
    urls
}

/// No moment after the Unix epoch is in a year before 1970.
proof fn lemma_after_the_epoch(unix_seconds: u64, year: int, month: int)
    requires
        in_month(unix_seconds, year, month),
    ensures
        year >= 1970,
{
    let days = held_seconds(unix_seconds) / 86_400;
    let y = choose|y: int| #[trigger]
        falls_in(days, y, month) && year == held_year(y);
    lemma_month_table(y);
    law_years_add_up(y);
    if month < 12 {
        lemma_months_in_order(y, month, 12);
    }
    if y < 1970 {
        lemma_years_in_order(y, 1970);
        assert(days_before_year(1970) == EPOCH_DAYS);
    }
}

/// Where the checksum of a release would be found.
pub fn checksum_sidecar_url(mmdb_url: &str) -> (url: String)
    ensures
        url@ == mmdb_url@ + ".sha1"@,
{
    let mut url = mmdb_url.to_owned();
    url.append(".sha1");
    url
}

/// Where MaxMind serves an edition. No part of the credentials is in it.
pub fn maxmind_download_url(edition: &str, suffix: &str) -> (url: String)
    ensures
        url@ == "https://download.maxmind.com/geoip/databases/"@ + edition@ + "/download?suffix="@
            + suffix@,
{
    let mut url = "https://download.maxmind.com/geoip/databases/".to_owned();
    url.append(edition);
    url.append("/download?suffix=");
    url.append(suffix);
    url
}

/// Why a download could not be decompressed.
#[derive(Debug)]
pub enum DecompressError {
    /// The stream is malformed or its checksum does not match, in the
    /// decoder's own words.
    Io(String),
    /// There is more than `max_bytes` of content.
    TooLarge {
        /// The limit.
        max_bytes: u64,
    },
}

/// Why no database could be taken out of an archive.
#[derive(Debug)]
pub enum ArchiveError {
    /// The gzip stream round the archive is malformed.
    Gzip(String),
    /// The archive is malformed.
    Tar(String),
    /// There is no database in the archive.
    NoDatabaseMember,
    /// The archive is longer than `max_bytes`.
    TooLarge {
        /// The limit.
        max_bytes: u64,
    },
}

/// What a gzip decoder makes of `gz` when it is read up to `limit` bytes: the
/// content that came, or the decoder's error.
pub uninterp spec fn gunzipped(gz: Seq<u8>, limit: u64) -> Result<Seq<u8>, Seq<char>>;

/// `flate2::read::GzDecoder`, limited by `take` and read by `read_to_end`: no
/// more than `limit` bytes of content, or the error that the decoder met.
#[verifier::external_body]
fn gunzip(gz_bytes: &[u8], limit: u64) -> (r: Result<Vec<u8>, String>)
    ensures
        match r {
            Ok(out) => gunzipped(gz_bytes@, limit) == Ok::<Seq<u8>, Seq<char>>(out@) && out@.len()
                <= limit,
            Err(error) => gunzipped(gz_bytes@, limit) == Err::<Seq<u8>, Seq<char>>(error@),
        },
{
    let mut limited = flate2::read::GzDecoder::new(gz_bytes).take(limit);
    let mut out = Vec::new();
    match limited.read_to_end(&mut out) {
        Ok(_) => Ok(out),
        Err(error) => Err(error.to_string()),
    }
}

/// What is accepted of a decoder's output that was read up to one byte past
/// the limit.
pub fn within_limit(output: Result<Vec<u8>, String>, max_bytes: u64) -> (r: Result<
    Vec<u8>,
    DecompressError,
>)
    ensures
        match (output, r) {
            (Ok(out), Ok(kept)) => out@.len() <= max_bytes && kept == out,
            (Ok(out), Err(e)) => out@.len() > max_bytes && (e matches DecompressError::TooLarge {
                max_bytes: limit,
            } && limit == max_bytes),
            (Err(error), Ok(_)) => false,
            (Err(error), Err(e)) => e matches DecompressError::Io(text) && text == error,
        },
{
    match output {
        Ok(out) => if out.len() as u64 > max_bytes {
            Err(DecompressError::TooLarge { max_bytes })
        } else {
            Ok(out)
        },
        Err(error) => Err(DecompressError::Io(error)),
    }
}

/// Decompresses a gzip stream of at most `max_bytes` of content.
///
/// The decoder is read one byte past the limit, so that it reaches the end of
/// an acceptable stream and checks its trailer.
pub fn decompress_bounded(gz_bytes: &[u8], max_bytes: u64) -> (r: Result<Vec<u8>, DecompressError>)
    requires
        max_bytes < u64::MAX,
    ensures
        match (gunzipped(gz_bytes@, (max_bytes + 1) as u64), r) {
            (Ok(content), Ok(out)) => content.len() <= max_bytes && out@ == content,
            (Ok(content), Err(e)) => content.len() > max_bytes && (
            e matches DecompressError::TooLarge { max_bytes: limit } && limit == max_bytes),
            (Err(error), Ok(_)) => false,
            (Err(error), Err(e)) => e matches DecompressError::Io(text) && text@ == error,
        },
{
    within_limit(gunzip(gz_bytes, max_bytes + 1), max_bytes)
}

/// The path of each member of an archive in their order, or the error met in
/// its place.
pub type Listing = Seq<Result<Seq<u8>, Seq<char>>>;

/// What a list of paths says.
pub open spec fn path_texts(paths: Seq<Result<Vec<u8>, String>>) -> Listing {
    paths.map_values(
        |path: Result<Vec<u8>, String>|
            match path {
                Ok(bytes) => Ok::<Seq<u8>, Seq<char>>(bytes@),
                Err(error) => Err(error@),
            },
    )
}

/// The paths of the members of an archive, or the error met before the first.
pub uninterp spec fn tar_listing(tar: Seq<u8>) -> Result<
    Seq<Result<Seq<u8>, Seq<char>>>,
    Seq<char>,
>;

/// What reading the member of an archive at a position gives, up to `limit`
/// bytes of it.
pub uninterp spec fn tar_content(tar: Seq<u8>, index: nat, limit: u64) -> Result<
    Seq<u8>,
    Seq<char>,
>;

/// Whether the block at a position has the form of the header of a sparse
/// member in the GNU format whose table goes on in the blocks behind it.
pub open spec fn extended_sparse(tar: Seq<u8>, at: int) -> bool {
    &&& 0 <= at
    &&& at + 512 <= tar.len()
    &&& tar[at + 156] == 0x53
    &&& tar.subrange(at + 257, at + 265) == seq![
        0x75u8,
        0x73u8,
        0x74u8,
        0x61u8,
        0x72u8,
        0x20u8,
        0x20u8,
        0x00u8,
    ]
    &&& tar[at + 482] == 1
}

/// The number that eight bytes from a position on are, the highest first.
pub open spec fn number_at(s: Seq<u8>, at: int) -> int {
    ((((((s[at] * 256 + s[at + 1]) * 256 + s[at + 2]) * 256 + s[at + 3]) * 256 + s[at + 4]) * 256
        + s[at + 5]) * 256 + s[at + 6]) * 256 + s[at + 7]
}

/// The size that the header at a position gives its member in binary, or 0. A
/// size in octal digits is no matter here: it is below 2^36.
pub open spec fn binary_size(tar: Seq<u8>, at: int) -> int {
    if tar[at + 124] >= 0x80 {
        number_at(tar, at + 128)
    } else {
        0
    }
}

/// The last member that is made out of an archive that goes on with the header
/// of a plain member of some size: where its header stands, and its size.
pub uninterp spec fn tar_last(part: Seq<u8>, size: u64) -> Option<(u64, u64)>;

/// At which block behind the header of a member the position of the next header
/// would pass 2^64, if each block moves it on.
pub open spec fn block_of_overflow(at: int, size: int) -> int {
    (0x1_0000_0000_0000_0000 - (at + 512 + (size + 511) / 512 * 512)) / 512
}

/// Whether the block at some place behind a header says that the table goes on.
pub open spec fn goes_on(tar: Seq<u8>, at: int, block: int) -> bool {
    tar[at + 512 * block + 504] == 1
}

/// Whether the header of an extended sparse member stands at a position, as far
/// as an archive is read up to there, and its table goes on as far as the block
/// at which the position of the next header would overflow.
pub open spec fn reaches_overflow(tar: Seq<u8>, at: int) -> bool {
    &&& extended_sparse(tar, at)
    &&& tar_last(tar.take(at), binary_size(tar, at) as u64) matches Some((header, size)) && header
        == at && {
        let block = block_of_overflow(at, size as int);
        &&& block >= 1
        &&& at + 512 * block <= tar.len()
        &&& forall|j: int| 1 <= j < block ==> #[trigger] goes_on(tar, at, j)
    }
}

/// Where the block at which the position of the next header would overflow
/// begins, for a header that reaches it.
pub open spec fn overflow_position(tar: Seq<u8>, at: int) -> int {
    at + 512 * block_of_overflow(
        at,
        (tar_last(tar.take(at), binary_size(tar, at) as u64)->0).1 as int,
    )
}

/// Whether reading the member at a position would overflow the position of the
/// next header.
pub open spec fn overflows(tar: Seq<u8>, at: int) -> bool {
    reaches_overflow(tar, at) && overflow_position(tar, at) + 512 <= tar.len()
}

/// Whether an archive ends in the table of a member, before the block at which
/// the position of the next header would overflow. Nothing behind that member's
/// header is read as a member.
pub open spec fn ends_before_overflow(tar: Seq<u8>, at: int) -> bool {
    reaches_overflow(tar, at) && overflow_position(tar, at) + 512 > tar.len()
}

/// Whether an archive can be read without an overflow.
pub open spec fn walkable(tar: Seq<u8>) -> bool {
    forall|at: int|
        0 <= at && at % 512 == 0 && #[trigger] overflows(tar, at) ==> exists|h: int|
            0 <= h < at && #[trigger] ends_before_overflow(tar, h)
}

/// How much of an archive can be read without an overflow, given that no header
/// before a position leads to one: up to the block at which the first overflow
/// would come, or all of it.
pub open spec fn readable_len(tar: Seq<u8>, from: int) -> int
    decreases tar.len() - from,
{
    if from + 512 > tar.len() {
        tar.len() as int
    } else if overflows(tar, from) {
        overflow_position(tar, from)
    } else {
        readable_len(tar, from + 512)
    }
}

/// The part of an archive that can be read without an overflow. It ends within
/// the table of the member at which the overflow would come, so reading that
/// member fails.
pub open spec fn walkable_part(tar: Seq<u8>) -> Seq<u8> {
    tar.take(readable_len(tar, 0))
}

/// `tar::Archive::entries` and the `path_bytes` of each of them: the stored
/// paths of the members in their order. The listing ends with the first member
/// that cannot be made out. The table of an extended sparse member of close to
/// 2^64 bytes would overflow the position of the next header, so there must be
/// none that is read.
#[verifier::external_body]
fn tar_paths(tar_bytes: &[u8]) -> (r: Result<Vec<Result<Vec<u8>, String>>, String>)
    requires
        walkable(tar_bytes@),
    ensures
        match r {
            Ok(paths) => tar_listing(tar_bytes@) == Ok::<Listing, Seq<char>>(path_texts(paths@)),
            Err(error) => tar_listing(tar_bytes@) == Err::<Listing, Seq<char>>(error@),
        },
{
    let mut archive = tar::Archive::new(tar_bytes);
    let entries = archive.entries().map_err(|error| error.to_string())?;
    Ok(entries.map(|entry| match entry {
        Ok(entry) => Ok(entry.path_bytes().into_owned()),
        Err(error) => Err(error.to_string()),
    }).collect())
}

/// `tar::Entry`, limited by `take` and read by `read_to_end`, of the member of
/// an archive at a position: no more than `limit` bytes of its content, or the
/// error that was met.
#[verifier::external_body]
fn read_tar_member(tar_bytes: &[u8], index: usize, limit: u64) -> (r: Result<Vec<u8>, String>)
    requires
        walkable(tar_bytes@),
        tar_listing(tar_bytes@) is Ok,
        index < (tar_listing(tar_bytes@)->Ok_0).len(),
    ensures
        match r {
            Ok(out) => tar_content(tar_bytes@, index as nat, limit) == Ok::<Seq<u8>, Seq<char>>(
                out@,
            ) && out@.len() <= limit,
            Err(error) => tar_content(tar_bytes@, index as nat, limit) == Err::<
                Seq<u8>,
                Seq<char>,
            >(error@),
        },
{
    let mut archive = tar::Archive::new(tar_bytes);
    let mut out = Vec::new();
    match archive.entries().map(|mut entries| entries.nth(index)) {
        Ok(Some(Ok(entry))) => match entry.take(limit).read_to_end(&mut out) {
            Ok(_) => Ok(out),
            Err(error) => Err(error.to_string()),
        },
        Ok(Some(Err(error))) => Err(error.to_string()),
        Ok(None) => Ok(out),
        Err(error) => Err(error.to_string()),
    }
}

/// `tar::Archive::entries` of the part of an archive before a position, with
/// the header of a plain member of some size from `tar::Header` behind it: where
/// the header of the last member stands that could be made out, by
/// `raw_header_position`, and its `size`. That is the added member where a header
/// is read at the position, and then its size is the one that an extension
/// record before it gives, or else the given one.
#[verifier::external_body]
fn last_member(tar_bytes: &[u8], at: usize, size: u64) -> (r: Option<(u64, u64)>)
    requires
        at + 512 <= tar_bytes@.len(),
        forall|b: int| 0 <= b < at && b % 512 == 0 ==> !#[trigger] overflows(tar_bytes@, b),
    ensures
        r == tar_last(tar_bytes@.take(at as int), size),
{
    let mut header = tar::Header::new_ustar();
    header.set_size(size);
    header.set_cksum();
    let mut archive = tar::Archive::new(tar_bytes[..at].chain(header.as_bytes().as_slice()));
    let last = archive.entries().ok()?.flatten().last()?;
    Some((last.raw_header_position(), last.size()))
}

/// Whether the block at a position is the header of an extended sparse member.
fn is_extended_sparse(tar: &[u8], at: usize) -> (yes: bool)
    requires
        at + 512 <= tar@.len(),
    ensures
        yes == extended_sparse(tar@, at as int),
{
    assert(tar.len() >= at + 512);
    let yes = tar[at + 156] == 0x53 && tar[at + 257] == 0x75 && tar[at + 258] == 0x73 && tar[at
        + 259] == 0x74 && tar[at + 260] == 0x61 && tar[at + 261] == 0x72 && tar[at + 262] == 0x20
        && tar[at + 263] == 0x20 && tar[at + 264] == 0x00 && tar[at + 482] == 1;
    proof {
        let magic = tar@.subrange(at + 257, at + 265);
        let gnu = seq![0x75u8, 0x73u8, 0x74u8, 0x61u8, 0x72u8, 0x20u8, 0x20u8, 0x00u8];
        assert(forall|i: int| 0 <= i < 8 ==> #[trigger] magic[i] == tar@[at + 257 + i]);
        if yes {
            assert(magic =~= gnu);
        } else if magic == gnu {
            assert(magic[0] == 0x75 && magic[1] == 0x73 && magic[2] == 0x74 && magic[3] == 0x61
                && magic[4] == 0x72 && magic[5] == 0x20 && magic[6] == 0x20 && magic[7] == 0x00);
        }
    }
    yes
}

/// The number that eight bytes from a position on are, the highest first.
fn read_number(s: &[u8], at: usize) -> (n: u64)
    requires
        at + 8 <= s@.len(),
    ensures
        n == number_at(s@, at as int),
{
    assert(s.len() >= at + 8);
    let high: u64 = ((s[at] as u64 * 256 + s[at + 1] as u64) * 256 + s[at + 2] as u64) * 256 + s[at
        + 3] as u64;
    let low: u64 = ((s[at + 4] as u64 * 256 + s[at + 5] as u64) * 256 + s[at + 6] as u64) * 256
        + s[at + 7] as u64;
    high * 0x1_0000_0000 + low
}

/// Where reading the member at a position would overflow the position of the
/// next header, if it would.
fn find_overflow(tar: &[u8], at: usize) -> (r: Option<usize>)
    requires
        at + 512 <= tar@.len(),
        forall|b: int| 0 <= b < at && b % 512 == 0 ==> !#[trigger] overflows(tar@, b),
    ensures
        match r {
            Some(position) => overflows(tar@, at as int) && position == overflow_position(
                tar@,
                at as int,
            ),
            None => !overflows(tar@, at as int),
        },
{
    if !is_extended_sparse(tar, at) {
        return None;
    }
    assert(tar.len() >= at + 512);
    let declared: u64 = if tar[at + 124] >= 0x80 {
        read_number(tar, at + 128)
    } else {
        0
    };
    let size: u64 = match last_member(tar, at, declared) {
        Some((header, size)) => {
            if header != at as u64 {
                return None;
            }
            size
        },
        None => {
            return None;
        },
    };
    let next: u128 = at as u128 + 512 + (size as u128 + 511) / 512 * 512;
    if next > 0x1_0000_0000_0000_0000 - 512 {
        return None;
    }
    let block: u128 = (0x1_0000_0000_0000_0000 - next) / 512;
    assert(block == block_of_overflow(at as int, size as int));
    if at as u128 + 512 * block + 512 > tar.len() as u128 {
        return None;
    }
    let block: usize = block as usize;
    if table_goes_on(tar, at, block) {
        Some(at + 512 * block)
    } else {
        None
    }
}

/// Whether every block behind a header up to some block says that the table goes
/// on.
fn table_goes_on(tar: &[u8], at: usize, block: usize) -> (yes: bool)
    requires
        block >= 1,
        at + 512 * block + 512 <= tar@.len(),
    ensures
        yes == forall|j: int| 1 <= j < block ==> #[trigger] goes_on(tar@, at as int, j),
{
    assert(tar.len() >= at + 512 * block + 512);
    let mut j: usize = 1;
    while j < block
        invariant
            1 <= j <= block,
            at + 512 * block + 512 <= tar@.len() <= usize::MAX,
            forall|i: int| 1 <= i < j ==> #[trigger] goes_on(tar@, at as int, i),
        decreases block - j,
    {
        if tar[at + 512 * j + 504] != 1 {
            assert(!goes_on(tar@, at as int, j as int));
            return false;
        }
        j = j + 1;
    }
    true
}

/// How much of an archive can be read without an overflow.
fn walkable_len(tar: &[u8]) -> (len: usize)
    ensures
        len == readable_len(tar@, 0),
        len <= tar@.len(),
        walkable(tar@.take(len as int)),
{
    let mut at: usize = 0;
    while tar.len() - at >= 512
        invariant
            at <= tar@.len(),
            at % 512 == 0,
            readable_len(tar@, 0) == readable_len(tar@, at as int),
            forall|b: int| 0 <= b < at && b % 512 == 0 ==> !#[trigger] overflows(tar@, b),
        decreases tar@.len() - at,
    {
        match find_overflow(tar, at) {
            Some(position) => {
                proof {
                    lemma_walkable(tar@, at as int, position as int);
                }
                return position;
            },
            None => {},
        }
        at = at + 512;
    }
    proof {
        lemma_walkable(tar@, at as int, tar@.len() as int);
    }
    tar.len()
}

/// What comes before the first overflow can be read without one.
proof fn lemma_walkable(tar: Seq<u8>, at: int, len: int)
    requires
        0 <= at <= len <= tar.len(),
        forall|b: int| 0 <= b < at && b % 512 == 0 ==> !#[trigger] overflows(tar, b),
        len == tar.len() && at + 512 > len || overflows(tar, at) && len == overflow_position(
            tar,
            at,
        ),
    ensures
        walkable(tar.take(len)),
{
    let part = tar.take(len);
    if overflows(tar, at) && len == overflow_position(tar, at) {
        lemma_same_header(tar, at, len);
        assert(ends_before_overflow(part, at));
    }
    assert forall|b: int| 0 <= b && b % 512 == 0 && #[trigger] overflows(part, b) implies exists|
        h: int,
    |
        0 <= h < b && #[trigger] ends_before_overflow(part, h) by {
        if b < at {
            lemma_same_header(tar, b, len);
            assert(overflows(tar, b));
        }
    }
}

/// A header, and its table as far as a part of an archive holds it, is read in
/// the part as in the archive.
proof fn lemma_same_header(tar: Seq<u8>, at: int, len: int)
    requires
        0 <= at,
        at + 512 <= len <= tar.len(),
    ensures
        overflow_position(tar.take(len), at) == overflow_position(tar, at),
        reaches_overflow(tar.take(len), at) ==> reaches_overflow(tar, at),
        reaches_overflow(tar, at) && overflow_position(tar, at) <= len ==> reaches_overflow(
            tar.take(len),
            at,
        ),
{
    let part = tar.take(len);
    assert(part.take(at) =~= tar.take(at));
    assert(part.subrange(at + 257, at + 265) =~= tar.subrange(at + 257, at + 265));
    assert(binary_size(part, at) == binary_size(tar, at));
    assert(forall|j: int|
        1 <= j && at + 512 * j + 512 <= len ==> #[trigger] goes_on(part, at, j) == goes_on(
            tar,
            at,
            j,
        ));
    if reaches_overflow(part, at) {
        let block = block_of_overflow(
            at,
            (tar_last(tar.take(at), binary_size(tar, at) as u64)->0).1 as int,
        );
        assert forall|j: int| 1 <= j < block implies #[trigger] goes_on(tar, at, j) by {
            assert(goes_on(part, at, j));
        }
    }
    if reaches_overflow(tar, at) && overflow_position(tar, at) <= len {
        let block = block_of_overflow(
            at,
            (tar_last(tar.take(at), binary_size(tar, at) as u64)->0).1 as int,
        );
        assert forall|j: int| 1 <= j < block implies #[trigger] goes_on(part, at, j) by {
            assert(goes_on(tar, at, j));
        }
    }
}

/// The position of the last `b` in `s`, or -1.
pub open spec fn last_byte(s: Seq<u8>, b: u8) -> int
    decreases s.len(),
{
    if s.len() == 0 {
        -1
    } else if s.last() == b {
        s.len() - 1
    } else {
        last_byte(s.drop_last(), b)
    }
}

/// The name of the file that a path with slashes ends in. Slashes and single
/// dots at the end do not count; a path that ends in two dots names no file.
pub open spec fn file_name(path: Seq<u8>) -> Option<Seq<u8>>
    decreases path.len(),
{
    let at = last_byte(path, 0x2f);
    let name = path.skip(at + 1);
    if name.len() == 0 || name == seq![0x2eu8] {
        if 0 <= at < path.len() {
            file_name(path.take(at))
        } else {
            None
        }
    } else if name == seq![0x2eu8, 0x2eu8] {
        None
    } else {
        Some(name)
    }
}

/// What follows the last dot of a file name, unless the dot begins it.
pub open spec fn extension(name: Seq<u8>) -> Option<Seq<u8>> {
    let dot = last_byte(name, 0x2e);
    if dot > 0 {
        Some(name.skip(dot + 1))
    } else {
        None
    }
}

/// The lower-case form of an ASCII letter.
pub open spec fn lower_byte(b: u8) -> u8 {
    if 0x41 <= b <= 0x5a {
        (b + 0x20) as u8
    } else {
        b
    }
}

/// Whether a path names a database: its extension is `mmdb` in any case.
pub open spec fn names_database(path: Seq<u8>) -> bool {
    match file_name(path) {
        Some(name) => match extension(name) {
            Some(ext) => ext.map_values(|b: u8| lower_byte(b)) == seq![
                0x6du8,
                0x6du8,
                0x64u8,
                0x62u8,
            ],
            None => false,
        },
        None => false,
    }
}

/// A position found behind the first `by` members, counted from the first.
pub open spec fn moved(found: Result<nat, Option<Seq<char>>>, by: nat) -> Result<
    nat,
    Option<Seq<char>>,
> {
    match found {
        Ok(at) => Ok(at + by),
        Err(error) => Err(error),
    }
}

/// Which member of an archive is the first database, if one is. An error met
/// before it decides; what follows it does not matter.
pub open spec fn first_database(list: Listing) -> Result<nat, Option<Seq<char>>>
    decreases list.len(),
{
    if list.len() == 0 {
        Err(None)
    } else {
        match list[0] {
            Err(error) => Err(Some(error)),
            Ok(path) => if names_database(path) {
                Ok(0)
            } else {
                moved(first_database(list.skip(1)), 1)
            },
        }
    }
}

/// Whether `r` is the database of an archive of at most `max_bytes`, or what
/// is wrong with the archive.
pub open spec fn archive_result(
    tar: Seq<u8>,
    max_bytes: u64,
    r: Result<Vec<u8>, ArchiveError>,
) -> bool {
    match tar_listing(walkable_part(tar)) {
        Err(error) => r matches Err(ArchiveError::Tar(text)) && text@ == error,
        Ok(list) => match first_database(list) {
            Err(Some(error)) => r matches Err(ArchiveError::Tar(text)) && text@ == error,
            Err(None) => r matches Err(ArchiveError::NoDatabaseMember),
            Ok(at) => match tar_content(walkable_part(tar), at, (max_bytes + 1) as u64) {
                Err(error) => r matches Err(ArchiveError::Tar(text)) && text@ == error,
                Ok(content) => if content.len() > max_bytes {
                    r matches Err(ArchiveError::TooLarge { max_bytes: limit }) && limit
                        == max_bytes
                } else {
                    r matches Ok(out) && out@ == content
                },
            },
        },
    }
}

fn rfind_byte(s: &[u8], to: usize, b: u8) -> (r: Option<usize>)
    requires
        to <= s@.len(),
    ensures
        match r {
            Some(at) => at == last_byte(s@.take(to as int), b) && at < to,
            None => last_byte(s@.take(to as int), b) == -1,
        },
{
    let mut i: usize = to;
    while i > 0
        invariant
            i <= to <= s@.len(),
            last_byte(s@.take(to as int), b) == last_byte(s@.take(i as int), b),
        decreases i,
    {
        assert(s@.take(i as int).drop_last() =~= s@.take(i - 1));
        if s[i - 1] == b {
            return Some(i - 1);
        }
        i = i - 1;
    }
    None
}

/// Whether a path names a database.
fn is_database_path(path: &[u8]) -> (yes: bool)
    ensures
        yes == names_database(path@),
{
    let mut to: usize = path.len();
    assert(path@.take(to as int) =~= path@);
    loop
        invariant
            to <= path@.len(),
            file_name(path@) == file_name(path@.take(to as int)),
        decreases to,
    {
        let ghost whole = path@.take(to as int);
        let slash = rfind_byte(path, to, 0x2f);
        let from: usize = match slash {
            Some(at) => at + 1,
            None => 0,
        };
        let name = vstd::slice::slice_subrange(path, from, to);
        assert(name@ =~= whole.skip(from as int));
        if name.len() == 0 || (name.len() == 1 && name[0] == 0x2e) {
            proof {
                if name@.len() == 1 {
                    assert(name@ =~= seq![0x2eu8]);
                }
            }
            match slash {
                Some(at) => {
                    assert(whole.take(at as int) =~= path@.take(at as int));
                    to = at;
                },
                None => {
                    return false;
                },
            }
        } else {
            proof {
                if name@ == seq![0x2eu8] {
                    assert(name@[0] == 0x2e);
                }
            }
            if name.len() == 2 && name[0] == 0x2e && name[1] == 0x2e {
                assert(name@ =~= seq![0x2eu8, 0x2eu8]);
                return false;
            }
            proof {
                if name@ == seq![0x2eu8, 0x2eu8] {
                    assert(name@[0] == 0x2e && name@[1] == 0x2e);
                }
                assert(file_name(path@) == Some(name@));
                assert(name@.take(name@.len() as int) =~= name@);
            }
            return has_database_extension(name);
        }
    }
}

fn has_database_extension(name: &[u8]) -> (yes: bool)
    ensures
        yes == match extension(name@) {
            Some(ext) => ext.map_values(|b: u8| lower_byte(b)) == seq![
                0x6du8,
                0x6du8,
                0x64u8,
                0x62u8,
            ],
            None => false,
        },
{
    assert(name@.take(name@.len() as int) =~= name@);
    match rfind_byte(name, name.len(), 0x2e) {
        None => false,
        Some(dot) => {
            if dot == 0 {
                return false;
            }
            let ext = vstd::slice::slice_subrange(name, dot + 1, name.len());
            assert(ext@ =~= name@.skip(dot + 1));
            let ghost low = ext@.map_values(|b: u8| lower_byte(b));
            let ghost wanted = seq![0x6du8, 0x6du8, 0x64u8, 0x62u8];
            if ext.len() != 4 {
                assert(low.len() != wanted.len());
                return false;
            }
            let yes = lowered(ext[0]) == 0x6d && lowered(ext[1]) == 0x6d && lowered(ext[2]) == 0x64
                && lowered(ext[3]) == 0x62;
            proof {
                if yes {
                    assert(low =~= wanted);
                } else if low == wanted {
                    assert(low[0] == 0x6d && low[1] == 0x6d && low[2] == 0x64 && low[3] == 0x62);
                }
            }
            yes
        },
    }
}

fn lowered(b: u8) -> (r: u8)
    ensures
        r == lower_byte(b),
{
    if 0x41 <= b && b <= 0x5a {
        b + 0x20
    } else {
        b
    }
}

/// Finds the first database among the members of an archive.
pub fn pick_database(paths: &[Result<Vec<u8>, String>]) -> (r: Result<usize, ArchiveError>)
    ensures
        match (first_database(path_texts(paths@)), r) {
            (Ok(at), Ok(index)) => index == at && index < paths@.len(),
            (Err(Some(error)), Err(ArchiveError::Tar(text))) => text@ == error,
            (Err(None), Err(ArchiveError::NoDatabaseMember)) => true,
            _ => false,
        },
{
    let ghost list = path_texts(paths@);
    let mut i: usize = 0;
    assert(list.skip(0) =~= list);
    while i < paths.len()
        invariant
            i <= paths@.len(),
            list == path_texts(paths@),
            first_database(list) == moved(first_database(list.skip(i as int)), i as nat),
        decreases paths@.len() - i,
    {
        assert(list.skip(i as int)[0] == list[i as int]);
        assert(list.skip(i as int).skip(1) =~= list.skip(i + 1));
        match &paths[i] {
            Err(error) => {
                return Err(ArchiveError::Tar(error.clone()));
            },
            Ok(path) => {
                if is_database_path(path) {
                    return Ok(i);
                }
            },
        }
        i = i + 1;
    }
    assert(list.skip(i as int).len() == 0);
    Err(ArchiveError::NoDatabaseMember)
}

/// Takes the first database out of the bytes of an archive.
fn database_of_tar(tar_bytes: &[u8], max_bytes: u64) -> (r: Result<Vec<u8>, ArchiveError>)
    requires
        max_bytes < u64::MAX,
    ensures
        archive_result(tar_bytes@, max_bytes, r),
{
    let len = walkable_len(tar_bytes);
    let part = vstd::slice::slice_subrange(tar_bytes, 0, len);
    assert(part@ =~= walkable_part(tar_bytes@));
    let paths = match tar_paths(part) {
        Ok(paths) => paths,
        Err(error) => {
            return Err(ArchiveError::Tar(error));
        },
    };
    match pick_database(&paths) {
        Ok(index) => match within_limit(read_tar_member(part, index, max_bytes + 1), max_bytes) {
            Ok(out) => Ok(out),
            Err(DecompressError::Io(error)) => Err(ArchiveError::Tar(error)),
            Err(DecompressError::TooLarge { max_bytes: limit }) => Err(
                ArchiveError::TooLarge { max_bytes: limit },
            ),
        },
        Err(error) => Err(error),
    }
}

/// Takes the database out of a compressed archive of at most `max_bytes`.
///
/// The limit holds for the whole archive and for the database in it, which a
/// sparse member could make longer than the archive.
pub fn extract_mmdb_from_tar_gz(gz_bytes: &[u8], max_bytes: u64) -> (r: Result<
    Vec<u8>,
    ArchiveError,
>)
    requires
        max_bytes < u64::MAX,
    ensures
        match gunzipped(gz_bytes@, (max_bytes + 1) as u64) {
            Err(error) => r matches Err(ArchiveError::Gzip(text)) && text@ == error,
            Ok(content) => if content.len() > max_bytes {
                r matches Err(ArchiveError::TooLarge { max_bytes: limit }) && limit == max_bytes
            } else {
                archive_result(content, max_bytes, r)
            },
        },
        r matches Ok(out) ==> out@.len() <= max_bytes,
{
    match decompress_bounded(gz_bytes, max_bytes) {
        Err(DecompressError::Io(error)) => Err(ArchiveError::Gzip(error)),
        Err(DecompressError::TooLarge { max_bytes: limit }) => Err(
            ArchiveError::TooLarge { max_bytes: limit },
        ),
        Ok(tar_bytes) => database_of_tar(&tar_bytes, max_bytes),
    }
}

/// How a limit is put into words.
pub open spec fn limit_message(what: Seq<char>, max_bytes: u64) -> Seq<char> {
    what + " exceeds the "@ + text::decimal(max_bytes as nat) + "-byte size limit"@
}

fn limit_text(what: &str, max_bytes: u64) -> (message: String)
    ensures
        message@ == limit_message(what@, max_bytes),
{
    let mut message = what.to_owned();
    message.append(" exceeds the ");
    message.append(text::string_of(&text::decimal_chars(max_bytes)).as_str());
    message.append("-byte size limit");
    message
}

impl DecompressError {
    /// The error in words.
    pub open spec fn spec_message(&self) -> Seq<char> {
        match self {
            DecompressError::Io(error) =>
                "gzip stream is malformed or its checksum doesn't match: "@ + error@,
            DecompressError::TooLarge { max_bytes } => limit_message(
                "decompressed database"@,
                *max_bytes,
            ),
        }
    }

    /// The error in words.
    pub fn message(&self) -> (message: String)
        ensures
            message@ == self.spec_message(),
    {
        match self {
            DecompressError::Io(error) => {
                let mut message =
                    "gzip stream is malformed or its checksum doesn't match: ".to_owned();
                message.append(error.as_str());
                message
            },
            DecompressError::TooLarge { max_bytes } => limit_text(
                "decompressed database",
                *max_bytes,
            ),
        }
    }
}

impl ArchiveError {
    /// The error in words.
    pub open spec fn spec_message(&self) -> Seq<char> {
        match self {
            ArchiveError::Gzip(error) =>
                "outer gzip stream is malformed or its checksum doesn't match: "@ + error@,
            ArchiveError::Tar(error) => "tar archive is malformed: "@ + error@,
            ArchiveError::NoDatabaseMember => "tar archive contains no .mmdb database member"@,
            ArchiveError::TooLarge { max_bytes } => limit_message(
                "decompressed archive"@,
                *max_bytes,
            ),
        }
    }

    /// The error in words.
    pub fn message(&self) -> (message: String)
        ensures
            message@ == self.spec_message(),
    {
        match self {
            ArchiveError::Gzip(error) => {
                let mut message =
                    "outer gzip stream is malformed or its checksum doesn't match: ".to_owned();
                message.append(error.as_str());
                message
            },
            ArchiveError::Tar(error) => {
                let mut message = "tar archive is malformed: ".to_owned();
                message.append(error.as_str());
                message
            },
            ArchiveError::NoDatabaseMember =>
                "tar archive contains no .mmdb database member".to_owned(),
            ArchiveError::TooLarge { max_bytes } => limit_text("decompressed archive", *max_bytes),
        }
    }
}

/// What a compressed database comes to: its content, or what is wrong with it,
/// in words.
pub open spec fn unpacked(gz: Seq<u8>, max_bytes: u64) -> Result<Seq<u8>, Seq<char>> {
    match gunzipped(gz, (max_bytes + 1) as u64) {
        Err(error) => Err("gzip stream is malformed or its checksum doesn't match: "@ + error),
        Ok(content) => if content.len() > max_bytes {
            Err(limit_message("decompressed database"@, max_bytes))
        } else {
            Ok(content)
        },
    }
}

/// What a compressed archive comes to: the database in it, or what is wrong
/// with it, in words.
pub open spec fn unpacked_archive(gz: Seq<u8>, max_bytes: u64) -> Result<Seq<u8>, Seq<char>> {
    match gunzipped(gz, (max_bytes + 1) as u64) {
        Err(error) => Err(
            "outer gzip stream is malformed or its checksum doesn't match: "@ + error,
        ),
        Ok(content) => if content.len() > max_bytes {
            Err(limit_message("decompressed archive"@, max_bytes))
        } else {
            match tar_listing(walkable_part(content)) {
                Err(error) => Err("tar archive is malformed: "@ + error),
                Ok(list) => match first_database(list) {
                    Ok(at) => match tar_content(
                        walkable_part(content),
                        at,
                        (max_bytes + 1) as u64,
                    ) {
                        Err(error) => Err("tar archive is malformed: "@ + error),
                        Ok(bytes) => if bytes.len() > max_bytes {
                            Err(limit_message("decompressed archive"@, max_bytes))
                        } else {
                            Ok(bytes)
                        },
                    },
                    Err(Some(error)) => Err("tar archive is malformed: "@ + error),
                    Err(None) => Err("tar archive contains no .mmdb database member"@),
                },
            }
        },
    }
}

/// Decompresses a database, with any error put into words.
pub fn unpack(gz_bytes: &[u8]) -> (r: Result<Vec<u8>, String>)
    ensures
        match r {
            Ok(out) => unpacked(gz_bytes@, MAX_GEOIP_DECOMPRESSED_BYTES) == Ok::<
                Seq<u8>,
                Seq<char>,
            >(out@),
            Err(error) => unpacked(gz_bytes@, MAX_GEOIP_DECOMPRESSED_BYTES) == Err::<
                Seq<u8>,
                Seq<char>,
            >(error@),
        },
{
    match decompress_bounded(gz_bytes, MAX_GEOIP_DECOMPRESSED_BYTES) {
        Ok(out) => Ok(out),
        Err(error) => Err(error.message()),
    }
}

/// Takes the database out of an archive, with any error put into words.
pub fn unpack_archive(gz_bytes: &[u8]) -> (r: Result<Vec<u8>, String>)
    ensures
        match r {
            Ok(out) => unpacked_archive(gz_bytes@, MAX_GEOIP_DECOMPRESSED_BYTES) == Ok::<
                Seq<u8>,
                Seq<char>,
            >(out@),
            Err(error) => unpacked_archive(gz_bytes@, MAX_GEOIP_DECOMPRESSED_BYTES) == Err::<
                Seq<u8>,
                Seq<char>,
            >(error@),
        },
{
    match extract_mmdb_from_tar_gz(gz_bytes, MAX_GEOIP_DECOMPRESSED_BYTES) {
        Ok(out) => Ok(out),
        Err(error) => Err(error.message()),
    }
}

/// Every fourth year has a leap day, but of the hundredth ones only every fourth.
pub proof fn law_which_years_have_a_leap_day(k: int, century: int)
    ensures
        !leap_year(4 * k + 1),
        !leap_year(4 * k + 2),
        !leap_year(4 * k + 3),
        leap_year(400 * k),
        !leap_year(400 * k + 100),
        !leap_year(400 * k + 200),
        !leap_year(400 * k + 300),
        1 <= k <= 24 ==> leap_year(100 * century + 4 * k),
{
    assert((4 * k + 1) % 4 == 1);
    assert((4 * k + 2) % 4 == 2);
    assert((4 * k + 3) % 4 == 3);
    assert((400 * k) % 4 == 0 && (400 * k) % 400 == 0);
    assert((400 * k + 100) % 100 == 0 && (400 * k + 100) % 400 == 100);
    assert((400 * k + 200) % 100 == 0 && (400 * k + 200) % 400 == 200);
    assert((400 * k + 300) % 100 == 0 && (400 * k + 300) % 400 == 300);
    if 1 <= k <= 24 {
        let year = 100 * century + 4 * k;
        assert(year == 4 * (25 * century + k));
        assert(year % 4 == 0);
        assert(year % 100 == 4 * k);
    }
}

/// How long each month is.
pub proof fn law_how_long_months_are(year: int)
    ensures
        seq![1int, 3, 5, 7, 8, 10, 12].all(|month: int| days_in_month(year, month) == 31),
        seq![4int, 6, 9, 11].all(|month: int| days_in_month(year, month) == 30),
        days_in_month(year, 2) == if year % 400 == 0 || (year % 4 == 0 && year % 100 != 0) {
            29int
        } else {
            28int
        },
{
}

/// Days are counted from the first of January 1970, and each month begins on the
/// day after the last one of the month before it.
pub proof fn law_where_months_begin(year: int, month: int)
    requires
        1 <= month <= 12,
    ensures
        first_day(1970, 1) == 0,
        month < 12 ==> first_day(year, month + 1) == first_day(year, month) + days_in_month(
            year,
            month,
        ),
        first_day(year + 1, 1) == first_day(year, 12) + days_in_month(year, 12),
{
    assert(days_before_month(1970, 1) == 0);
    law_years_add_up(year);
    assert(days_before_month(year + 1, 1) == 0);
    lemma_month_table(year);
}

/// A moment is in a month from the first second of its first day up to the last of
/// its last, for as long as 32 bits hold the year.
pub proof fn law_when_a_month_is(unix_seconds: u64, year: int, month: int)
    requires
        unix_seconds <= 67_651_200_000_000_000,
    ensures
        in_month(unix_seconds, year, month) <==> 1 <= month <= 12 && first_day(year, month) * 86_400
            <= unix_seconds < (first_day(year, month) + days_in_month(year, month)) * 86_400,
{
    let days = unix_seconds as int / 86_400;
    law_years_are_held(days, year, month);
    assert(days * 86_400 <= unix_seconds < (days + 1) * 86_400);
}

/// The month before a month is the one that it comes after.
pub proof fn law_the_month_before(year: int, month: int)
    requires
        1 <= month <= 12,
    ensures
        month_after(month_before(year, month).0, month_before(year, month).1) == (year, month),
        month_before(month_after(year, month).0, month_after(year, month).1) == (year, month),
        1 <= month_before(year, month).1 <= 12,
        first_day(month_before(year, month).0, month_before(year, month).1) + days_in_month(
            month_before(year, month).0,
            month_before(year, month).1,
        ) == first_day(year, month),
{
    let before = month_before(year, month);
    law_where_months_begin(before.0, before.1);
}

/// The release of a month is named by the year in four digits and the month in two.
pub proof fn law_where_a_release_is_found(year: nat, month: nat)
    requires
        1000 <= year,
        1 <= month <= 12,
    ensures
        month < 10 ==> release_url(year, month)
            == "https://download.db-ip.com/free/dbip-country-lite-"@ + text::decimal(year) + "-0"@
            + text::decimal(month) + ".mmdb.gz"@,
        month >= 10 ==> release_url(year, month)
            == "https://download.db-ip.com/free/dbip-country-lite-"@ + text::decimal(year) + "-"@
            + text::decimal(month) + ".mmdb.gz"@,
{
    reveal_strlit("https://download.db-ip.com/free/dbip-country-lite-");
    reveal_strlit("https://download.db-ip.com/free/");
    reveal_strlit("dbip-country-lite-");
    reveal_strlit("-0");
    reveal_strlit("-");
    assert("https://download.db-ip.com/free/"@ + "dbip-country-lite-"@
        =~= "https://download.db-ip.com/free/dbip-country-lite-"@);
    assert(text::decimal(year).len() >= 4) by {
        assert(text::decimal(year).len() == text::decimal(year / 10).len() + 1);
        assert(text::decimal(year / 10).len() == text::decimal(year / 10 / 10).len() + 1);
        assert(text::decimal(year / 10 / 10).len() == text::decimal(year / 10 / 10 / 10).len() + 1);
        text::law_decimal_numbers_are_read_back(year / 10 / 10 / 10);
    }
    if month < 10 {
        assert(text::decimal(month).len() == 1);
        assert("-"@ + text::zero_padded(text::decimal(month), 2) =~= "-0"@ + text::decimal(month));
        assert(release_url(year, month) =~= "https://download.db-ip.com/free/dbip-country-lite-"@
            + text::decimal(year) + ("-"@ + text::zero_padded(text::decimal(month), 2))
            + ".mmdb.gz"@);
        assert("https://download.db-ip.com/free/dbip-country-lite-"@ + text::decimal(year) + ("-0"@
            + text::decimal(month)) + ".mmdb.gz"@
            =~= "https://download.db-ip.com/free/dbip-country-lite-"@ + text::decimal(year) + "-0"@
            + text::decimal(month) + ".mmdb.gz"@);
    } else {
        assert(text::decimal(month).len() == text::decimal(month / 10).len() + 1);
        text::law_decimal_numbers_are_read_back(month / 10);
        assert(release_url(year, month) =~= "https://download.db-ip.com/free/dbip-country-lite-"@
            + text::decimal(year) + "-"@ + text::decimal(month) + ".mmdb.gz"@);
    }
}

proof fn lemma_last_byte(before: Seq<u8>, b: u8, after: Seq<u8>)
    requires
        !after.contains(b),
    ensures
        last_byte(after, b) == -1,
        last_byte(before + seq![b] + after, b) == before.len(),
    decreases after.len(),
{
    let s = before + seq![b] + after;
    if after.len() > 0 {
        let fewer = after.drop_last();
        assert(after.contains(after[after.len() - 1]));
        assert(!fewer.contains(b)) by {
            if fewer.contains(b) {
                let k = choose|k: int| 0 <= k < fewer.len() && fewer[k] == b;
                assert(after[k] == b);
            }
        }
        lemma_last_byte(before, b, fewer);
        assert(s.drop_last() =~= before + seq![b] + fewer);
        assert(s.last() == after.last());
    } else {
        assert(s.last() == b);
    }
}

proof fn lemma_file_name(dir: Seq<u8>, name: Seq<u8>)
    requires
        dir.len() > 0 ==> dir.last() == 0x2f,
        !name.contains(0x2f),
        name.len() > 0,
        name != seq![0x2eu8],
    ensures
        name == seq![0x2eu8, 0x2eu8] ==> file_name(dir + name) is None,
        name != seq![0x2eu8, 0x2eu8] ==> file_name(dir + name) == Some(name),
{
    let path = dir + name;
    if dir.len() > 0 {
        lemma_last_byte(dir.drop_last(), 0x2f, name);
        assert(dir.drop_last() + seq![0x2fu8] + name =~= path);
    } else {
        lemma_last_byte(dir, 0x2f, name);
        assert(path =~= name);
    }
    assert(last_byte(path, 0x2f) == dir.len() - 1);
    assert(path.skip(dir.len() as int) =~= name);
}

/// A path names a database if and only if what stands behind the last dot of its
/// file name is `mmdb` in any case, whatever directories it is in.
pub proof fn law_which_paths_name_a_database(dir: Seq<u8>, stem: Seq<u8>, ext: Seq<u8>)
    requires
        dir.len() > 0 ==> dir.last() == 0x2f,
        stem.len() > 0,
        !stem.contains(0x2f),
        !ext.contains(0x2f),
        !ext.contains(0x2e),
    ensures
        names_database(dir + (stem + seq![0x2eu8] + ext)) <==> ext.len() == 4 && (ext[0] == 0x6d
            || ext[0] == 0x4d) && (ext[1] == 0x6d || ext[1] == 0x4d) && (ext[2] == 0x64 || ext[2]
            == 0x44) && (ext[3] == 0x62 || ext[3] == 0x42),
{
    let name = stem + seq![0x2eu8] + ext;
    assert(!name.contains(0x2f)) by {
        if name.contains(0x2f) {
            let k = choose|k: int| 0 <= k < name.len() && name[k] == 0x2f;
            if k < stem.len() {
                assert(stem[k] == 0x2f);
            } else if k > stem.len() {
                assert(ext[k - stem.len() - 1] == 0x2f);
            }
        }
    }
    assert(name.len() >= 2);
    lemma_file_name(dir, name);
    if name == seq![0x2eu8, 0x2eu8] {
        assert(name.len() == 2);
        assert(ext.len() == 0);
    } else {
        lemma_last_byte(stem, 0x2e, ext);
        assert(name.skip(stem.len() as int + 1) =~= ext);
        let lower = ext.map_values(|b: u8| lower_byte(b));
        let mmdb = seq![0x6du8, 0x6du8, 0x64u8, 0x62u8];
        if lower == mmdb {
            assert(lower.len() == 4);
            assert(lower[0] == 0x6d && lower[1] == 0x6d && lower[2] == 0x64 && lower[3] == 0x62);
        }
        if ext.len() == 4 && (ext[0] == 0x6d || ext[0] == 0x4d) && (ext[1] == 0x6d || ext[1]
            == 0x4d) && (ext[2] == 0x64 || ext[2] == 0x44) && (ext[3] == 0x62 || ext[3] == 0x42) {
            assert(lower =~= mmdb);
        }
    }
}

/// A file name without a dot, or with one at its start and no other, names no
/// database; slashes and single dots at the end of a path do not count.
pub proof fn law_which_paths_name_none(dir: Seq<u8>, name: Seq<u8>, path: Seq<u8>)
    requires
        dir.len() > 0 ==> dir.last() == 0x2f,
        name.len() > 0,
        !name.contains(0x2f),
        !name.contains(0x2e),
    ensures
        !names_database(dir + name),
        !names_database(dir + (seq![0x2eu8] + name)),
        names_database(path.push(0x2f)) == names_database(path),
        path.len() > 0 && path.last() == 0x2f ==> names_database(path.push(0x2e)) == names_database(
            path,
        ),
{
    let hidden = seq![0x2eu8] + name;
    assert(name != seq![0x2eu8]) by {
        if name == seq![0x2eu8] {
            assert(name[0] == 0x2e);
        }
    }
    assert(name.contains(name[0]));
    lemma_file_name(dir, name);
    lemma_last_byte(Seq::empty(), 0x2e, name);
    if name == seq![0x2eu8, 0x2eu8] {
        assert(name[0] == 0x2e);
    }
    assert(!hidden.contains(0x2f)) by {
        if hidden.contains(0x2f) {
            let k = choose|k: int| 0 <= k < hidden.len() && hidden[k] == 0x2f;
            if k > 0 {
                assert(name[k - 1] == 0x2f);
            }
        }
    }
    assert(hidden.len() >= 2);
    if hidden == seq![0x2eu8, 0x2eu8] {
        assert(hidden[1] == 0x2e);
        assert(name[0] == 0x2e);
    }
    lemma_file_name(dir, hidden);
    assert(Seq::<u8>::empty() + seq![0x2eu8] + name =~= hidden);
    let slashed = path.push(0x2f);
    assert(last_byte(slashed, 0x2f) == path.len());
    assert(slashed.skip(path.len() as int + 1) =~= Seq::<u8>::empty());
    assert(slashed.take(path.len() as int) =~= path);
    assert(file_name(slashed) == file_name(path));
    if path.len() > 0 && path.last() == 0x2f {
        let dotted = path.push(0x2e);
        let up = path.drop_last();
        lemma_last_byte(up, 0x2f, seq![0x2eu8]);
        assert(up + seq![0x2fu8] + seq![0x2eu8] =~= dotted);
        assert(dotted.skip(path.len() as int) =~= seq![0x2eu8]);
        assert(dotted.take(path.len() - 1) =~= up);
        assert(last_byte(path, 0x2f) == path.len() - 1);
        assert(path.skip(path.len() as int) =~= Seq::<u8>::empty());
        assert(path.take(path.len() - 1) =~= up);
        assert(file_name(dotted) == file_name(up));
        assert(file_name(path) == file_name(up));
    }
}

/// The database of an archive is the first member whose path names one. An error
/// that comes before it decides; members behind it do not matter.
pub proof fn law_the_first_database_is_taken(
    before: Listing,
    path: Seq<u8>,
    error: Seq<char>,
    after: Listing,
)
    requires
        forall|i: int|
            0 <= i < before.len() ==> (#[trigger] before[i]) is Ok && !names_database(
                before[i]->Ok_0,
            ),
    ensures
        first_database(before) == Err::<nat, Option<Seq<char>>>(None),
        names_database(path) ==> first_database(before + seq![Ok(path)] + after) == Ok::<
            nat,
            Option<Seq<char>>,
        >(before.len()),
        first_database(before + seq![Err(error)] + after) == Err::<nat, Option<Seq<char>>>(
            Some(error),
        ),
    decreases before.len(),
{
    let found = before + seq![Ok(path)] + after;
    let failed = before + seq![Err(error)] + after;
    if before.len() > 0 {
        let fewer = before.skip(1);
        assert forall|i: int| 0 <= i < fewer.len() implies (#[trigger] fewer[i]) is Ok
            && !names_database(fewer[i]->Ok_0) by {
            assert(fewer[i] == before[i + 1]);
        }
        law_the_first_database_is_taken(fewer, path, error, after);
        assert(before[0] is Ok);
        assert(found.skip(1) =~= fewer + seq![Ok(path)] + after);
        assert(failed.skip(1) =~= fewer + seq![Err(error)] + after);
        assert(found[0] == before[0]);
        assert(failed[0] == before[0]);
    } else {
        assert(found[0] == Ok::<Seq<u8>, Seq<char>>(path));
        assert(failed[0] == Err::<Seq<u8>, Seq<char>>(error));
    }
}

/// A compressed database is its content, where that decompresses to at most so many
/// bytes; it is read one byte further to tell.
pub proof fn law_what_is_unpacked(gz: Seq<u8>, max_bytes: u64, content: Seq<u8>)
    requires
        max_bytes < u64::MAX,
    ensures
        unpacked(gz, max_bytes) == Ok::<Seq<u8>, Seq<char>>(content) <==> gunzipped(
            gz,
            (max_bytes + 1) as u64,
        ) == Ok::<Seq<u8>, Seq<char>>(content) && content.len() <= max_bytes,
        gunzipped(gz, (max_bytes + 1) as u64) matches Err(error) ==> unpacked(gz, max_bytes)
            == Err::<Seq<u8>, Seq<char>>(
            "gzip stream is malformed or its checksum doesn't match: "@ + error,
        ),
        gunzipped(gz, (max_bytes + 1) as u64) matches Ok(out) && out.len() > max_bytes ==> unpacked(
            gz,
            max_bytes,
        ) == Err::<Seq<u8>, Seq<char>>(
            "decompressed database"@ + " exceeds the "@ + text::decimal(max_bytes as nat)
                + "-byte size limit"@,
        ),
{
}

/// A compressed archive gives the content of the member that is its database, where
/// neither the archive nor the member is too long, and else says what is wrong.
pub proof fn law_what_an_archive_gives(
    gz: Seq<u8>,
    max_bytes: u64,
    tar: Seq<u8>,
    list: Listing,
    at: nat,
    content: Seq<u8>,
)
    requires
        max_bytes < u64::MAX,
    ensures
        gunzipped(gz, (max_bytes + 1) as u64) == Ok::<Seq<u8>, Seq<char>>(tar) && tar.len()
            <= max_bytes && tar_listing(walkable_part(tar)) == Ok::<Listing, Seq<char>>(list)
            && first_database(list) == Ok::<nat, Option<Seq<char>>>(at) && tar_content(
            walkable_part(tar),
            at,
            (max_bytes + 1) as u64,
        ) == Ok::<Seq<u8>, Seq<char>>(content) ==> unpacked_archive(gz, max_bytes) == (if content.len()
            <= max_bytes {
            Ok::<Seq<u8>, Seq<char>>(content)
        } else {
            Err(
                "decompressed archive"@ + " exceeds the "@ + text::decimal(max_bytes as nat)
                    + "-byte size limit"@,
            )
        }),
        gunzipped(gz, (max_bytes + 1) as u64) == Ok::<Seq<u8>, Seq<char>>(tar) && tar.len()
            <= max_bytes && tar_listing(walkable_part(tar)) == Ok::<Listing, Seq<char>>(list)
            && first_database(list) == Err::<nat, Option<Seq<char>>>(None) ==> unpacked_archive(
            gz,
            max_bytes,
        ) == Err::<Seq<u8>, Seq<char>>("tar archive contains no .mmdb database member"@),
        gunzipped(gz, (max_bytes + 1) as u64) matches Err(error) ==> unpacked_archive(gz, max_bytes)
            == Err::<Seq<u8>, Seq<char>>(
            "outer gzip stream is malformed or its checksum doesn't match: "@ + error,
        ),
        gunzipped(gz, (max_bytes + 1) as u64) matches Ok(out) && out.len() > max_bytes
            ==> unpacked_archive(gz, max_bytes) == Err::<Seq<u8>, Seq<char>>(
            "decompressed archive"@ + " exceeds the "@ + text::decimal(max_bytes as nat)
                + "-byte size limit"@,
        ),
        gunzipped(gz, (max_bytes + 1) as u64) == Ok::<Seq<u8>, Seq<char>>(tar) && tar.len()
            <= max_bytes ==> match tar_listing(walkable_part(tar)) {
            Err(error) => unpacked_archive(gz, max_bytes) == Err::<Seq<u8>, Seq<char>>(
                "tar archive is malformed: "@ + error,
            ),
            Ok(members) => match first_database(members) {
                Err(Some(error)) => unpacked_archive(gz, max_bytes) == Err::<Seq<u8>, Seq<char>>(
                    "tar archive is malformed: "@ + error,
                ),
                Err(None) => true,
                Ok(index) => tar_content(walkable_part(tar), index, (max_bytes + 1) as u64) matches
                Err(error) ==> unpacked_archive(gz, max_bytes) == Err::<Seq<u8>, Seq<char>>(
                    "tar archive is malformed: "@ + error,
                ),
            },
        },
        unpacked_archive(gz, max_bytes) is Ok ==> (gunzipped(gz, (max_bytes + 1) as u64) matches Ok(
            out,
        ) && out.len() <= max_bytes && (tar_listing(walkable_part(out)) matches Ok(members)
            && first_database(members) matches Ok(_))) && (unpacked_archive(gz, max_bytes)->Ok_0).len()
            <= max_bytes,
{
}

/// The result of an archive is its database, where one is found that is not too
/// long.
pub proof fn law_what_counts_as_the_result_of_an_archive(
    tar: Seq<u8>,
    max_bytes: u64,
    r: Result<Vec<u8>, ArchiveError>,
)
    requires
        max_bytes < u64::MAX,
        archive_result(tar, max_bytes, r),
    ensures
        r matches Ok(out) ==> out@.len() <= max_bytes && (tar_listing(walkable_part(tar)) matches Ok(
            list,
        ) && (first_database(list) matches Ok(at) && tar_content(
            walkable_part(tar),
            at,
            (max_bytes + 1) as u64,
        ) == Ok::<Seq<u8>, Seq<char>>(out@))),
        r matches Err(error) ==> (error is NoDatabaseMember <==> (tar_listing(walkable_part(tar))
            matches Ok(list) && first_database(list) == Err::<nat, Option<Seq<char>>>(None))),
        r matches Err(ArchiveError::TooLarge { max_bytes: limit }) ==> limit == max_bytes && (
        tar_listing(walkable_part(tar)) matches Ok(list) && (first_database(list) matches Ok(at) && (
        tar_content(walkable_part(tar), at, (max_bytes + 1) as u64) matches Ok(content)
            && content.len() > max_bytes))),
        r matches Err(ArchiveError::Tar(text)) ==> match tar_listing(walkable_part(tar)) {
            Err(error) => text@ == error,
            Ok(list) => match first_database(list) {
                Err(error) => error == Some(text@),
                Ok(at) => tar_content(walkable_part(tar), at, (max_bytes + 1) as u64) == Err::<
                    Seq<u8>,
                    Seq<char>,
                >(text@),
            },
        },
        !(r matches Err(ArchiveError::Gzip(_))),
{
}

/// An archive is read up to the block at which the position of the next header
/// would overflow for the first time, and whole where it never would.
pub proof fn law_how_much_of_an_archive_is_read(tar: Seq<u8>, at: int)
    requires
        0 <= at,
        at % 512 == 0,
        forall|b: int| 0 <= b < at && b % 512 == 0 ==> !#[trigger] overflows(tar, b),
    ensures
        overflows(tar, at) ==> walkable_part(tar) == tar.take(overflow_position(tar, at)),
        at >= tar.len() ==> walkable_part(tar) == tar,
{
    lemma_read_up_to(tar, 0, at);
    assert(tar.take(tar.len() as int) =~= tar);
}

proof fn lemma_read_up_to(tar: Seq<u8>, from: int, at: int)
    requires
        0 <= from <= at,
        from % 512 == 0,
        at % 512 == 0,
        forall|b: int| 0 <= b < at && b % 512 == 0 ==> !#[trigger] overflows(tar, b),
    ensures
        overflows(tar, at) ==> readable_len(tar, from) == overflow_position(tar, at),
        at >= tar.len() ==> readable_len(tar, from) == tar.len(),
    decreases at - from,
{
    if from < at {
        assert(!overflows(tar, from));
        if from + 512 <= at {
            lemma_read_up_to(tar, from + 512, at);
        }
    }
}

/// When a header leads to an overflow: it is that of a sparse member in the GNU
/// format whose table goes on, it is read as a header, and its table goes on in
/// every block up to the one that takes the position of the next header past 2^64.
pub proof fn law_when_a_header_leads_to_an_overflow(
    tar: Seq<u8>,
    at: int,
    size: u64,
    block: int,
)
    requires
        0 <= at,
        at + 512 <= tar.len(),
        tar_last(tar.take(at), binary_size(tar, at) as u64) == Some((at as u64, size)),
        at <= u64::MAX,
        at + 512 + (size + 511) / 512 * 512 + 512 * block <= 0x1_0000_0000_0000_0000,
        at + 512 + (size + 511) / 512 * 512 + 512 * (block + 1) > 0x1_0000_0000_0000_0000,
    ensures
        overflows(tar, at) <==> tar[at + 156] == 0x53 && tar[at + 257] == 0x75 && tar[at + 258]
            == 0x73 && tar[at + 259] == 0x74 && tar[at + 260] == 0x61 && tar[at + 261] == 0x72
            && tar[at + 262] == 0x20 && tar[at + 263] == 0x20 && tar[at + 264] == 0 && tar[at
            + 482] == 1 && block >= 1 && at + 512 * block + 512 <= tar.len() && forall|j: int|
            1 <= j < block ==> tar[at + #[trigger] (512 * j) + 504] == 1,
        overflows(tar, at) ==> overflow_position(tar, at) == at + 512 * block,
{
    assert(block_of_overflow(at, size as int) == block);
    let magic = tar.subrange(at + 257, at + 265);
    let gnu = seq![0x75u8, 0x73u8, 0x74u8, 0x61u8, 0x72u8, 0x20u8, 0x20u8, 0x00u8];
    assert(forall|i: int| 0 <= i < 8 ==> #[trigger] magic[i] == tar[at + 257 + i]);
    assert(magic[0] == tar[at + 257] && magic[1] == tar[at + 258] && magic[2] == tar[at + 259]
        && magic[3] == tar[at + 260] && magic[4] == tar[at + 261] && magic[5] == tar[at + 262]
        && magic[6] == tar[at + 263] && magic[7] == tar[at + 264]);
    if magic[0] == 0x75 && magic[1] == 0x73 && magic[2] == 0x74 && magic[3] == 0x61 && magic[4]
        == 0x72 && magic[5] == 0x20 && magic[6] == 0x20 && magic[7] == 0 {
        assert(magic =~= gnu);
    }
    if forall|j: int| 1 <= j < block ==> tar[at + #[trigger] (512 * j) + 504] == 1 {
        assert forall|j: int| 1 <= j < block implies #[trigger] goes_on(tar, at, j) by {
            assert(tar[at + 512 * j + 504] == 1);
        }
    }
    if forall|j: int| 1 <= j < block ==> #[trigger] goes_on(tar, at, j) {
        assert forall|j: int| 1 <= j < block implies tar[at + #[trigger] (512 * j) + 504] == 1 by {
            assert(goes_on(tar, at, j));
        }
    }
}

/// A size in binary is eight bytes behind the first ones of its field, the highest
/// first; one in digits counts as none.
pub proof fn law_sizes_in_binary(tar: Seq<u8>, at: int)
    requires
        0 <= at,
        at + 512 <= tar.len(),
    ensures
        tar[at + 124] < 0x80 ==> binary_size(tar, at) == 0,
        tar[at + 124] >= 0x80 ==> binary_size(tar, at) == tar.subrange(
            at + 128,
            at + 136,
        ).fold_left(0int, |sum: int, byte: u8| sum * 256 + byte),
{
    let digits = tar.subrange(at + 128, at + 136);
    let step = |sum: int, byte: u8| sum * 256 + byte;
    reveal_with_fuel(Seq::fold_left, 9);
    assert(digits.fold_left(0int, step) == number_at(tar, at + 128)) by {
        assert(digits.len() == 8);
    }
}

/// The words for errors say what is wrong, and quote the error or the limit.
pub proof fn law_errors_in_words(decompress: DecompressError, archive: ArchiveError)
    ensures
        decompress matches DecompressError::Io(error) ==> decompress.spec_message()
            == "gzip stream is malformed or its checksum doesn't match: "@ + error@,
        decompress matches DecompressError::TooLarge { max_bytes } ==> decompress.spec_message()
            == "decompressed database"@ + " exceeds the "@ + text::decimal(max_bytes as nat)
            + "-byte size limit"@,
        archive matches ArchiveError::Gzip(error) ==> archive.spec_message()
            == "outer gzip stream is malformed or its checksum doesn't match: "@ + error@,
        archive matches ArchiveError::Tar(error) ==> archive.spec_message()
            == "tar archive is malformed: "@ + error@,
        archive is NoDatabaseMember ==> archive.spec_message()
            == "tar archive contains no .mmdb database member"@,
        archive matches ArchiveError::TooLarge { max_bytes } ==> archive.spec_message()
            == "decompressed archive"@ + " exceeds the "@ + text::decimal(max_bytes as nat)
            + "-byte size limit"@,
{
}

/// A list of paths is read one by one, in order.
pub proof fn law_paths_are_read_in_order(paths: Seq<Result<Vec<u8>, String>>, i: int)
    ensures
        path_texts(paths).len() == paths.len(),
        0 <= i < paths.len() ==> (match paths[i] {
            Ok(bytes) => path_texts(paths)[i] == Ok::<Seq<u8>, Seq<char>>(bytes@),
            Err(error) => path_texts(paths)[i] == Err::<Seq<u8>, Seq<char>>(error@),
        }),
{
}

/// The month of a day is the one that holds it, and its year is named as far as 32
/// bits go, and else by the last that they hold. The month of a moment is that of
/// its day, as far as 63 bits count the seconds.
pub proof fn law_how_months_are_named(days: int, year: int, month: int, unix_seconds: u64)
    ensures
        civil(days, year, month) <==> exists|y: int|
            1 <= month <= 12 && #[trigger] first_day(y, month) <= days < first_day(y, month)
                + days_in_month(y, month) && (if -0x8000_0000 <= y <= 0x7fff_ffff {
                year == y
            } else {
                year == 0x7fff_ffff
            }),
        unix_seconds <= i64::MAX ==> in_month(unix_seconds, year, month) == civil(
            unix_seconds as int / 86_400,
            year,
            month,
        ),
        unix_seconds > i64::MAX ==> in_month(unix_seconds, year, month) == civil(
            i64::MAX as int / 86_400,
            year,
            month,
        ),
{
    if civil(days, year, month) {
        let y = choose|y: int| #[trigger] falls_in(days, y, month) && year == held_year(y);
        assert(first_day(y, month) <= days);
    }
    if exists|y: int|
        1 <= month <= 12 && #[trigger] first_day(y, month) <= days < first_day(y, month)
            + days_in_month(y, month) && (if -0x8000_0000 <= y <= 0x7fff_ffff {
            year == y
        } else {
            year == 0x7fff_ffff
        }) {
        let y = choose|y: int|
            1 <= month <= 12 && #[trigger] first_day(y, month) <= days < first_day(y, month)
                + days_in_month(y, month) && (if -0x8000_0000 <= y <= 0x7fff_ffff {
                year == y
            } else {
                year == 0x7fff_ffff
            });
        assert(falls_in(days, y, month));
    }
}

} // verus!
