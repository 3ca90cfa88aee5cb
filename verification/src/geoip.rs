//! Countries of addresses, from a database in the MaxMind format.
use maxminddb::{PathElement, Reader};
use vstd::prelude::*;
use crate::text;

verus! {

/// An address that a name was resolved to.
#[derive(Debug, Clone, Copy)]
pub enum IpAddr {
    /// An IPv4 address, in network order.
    V4([u8; 4]),
    /// An IPv6 address, in network order.
    V6([u8; 16]),
}

impl View for IpAddr {
    type V = Seq<u8>;

    open spec fn view(&self) -> Seq<u8> {
        match self {
            IpAddr::V4(octets) => octets@,
            IpAddr::V6(octets) => octets@,
        }
    }
}

/// Why a database could not be opened.
#[derive(Debug)]
pub enum GeoipError {
    /// The bytes are not a database, in the reader's own words.
    Open(String),
}

/// The latest build time, in seconds after the Unix epoch, that the clock of
/// every supported system can hold.
pub const LATEST_BUILD: u64 = 910_692_730_085;

/// The length from which on a database may be too long for a machine of 32 bits.
pub const LARGE_DATABASE: u64 = 1_073_741_824;

/// What the metadata of a database says: its type and when it was built, in
/// seconds after the Unix epoch. Other bytes say nothing.
pub uninterp spec fn mmdb_metadata(bytes: Seq<u8>) -> Option<(Seq<char>, u64)>;

/// The country code that a database holds for an address.
pub uninterp spec fn mmdb_country(bytes: Seq<u8>, ip: Seq<u8>) -> Option<Seq<char>>;

/// Whether opening some bytes may fail: they are no database, or one that not
/// every machine can open, since it was built later than some system's clock can
/// tell or is very large.
pub open spec fn may_be_refused(bytes: Seq<u8>) -> bool {
    match mmdb_metadata(bytes) {
        Some((_, built)) => built > LATEST_BUILD || bytes.len() >= LARGE_DATABASE,
        None => true,
    }
}

/// An open database: a `maxminddb::Reader` over bytes of its own.
#[verifier::external_body]
pub struct Database {
    reader: Reader<Vec<u8>>,
}

/// The bytes that an open database holds.
pub uninterp spec fn database_bytes(database: Database) -> Seq<u8>;

/// `maxminddb::Reader::from_source`: a database over the bytes, or an error in
/// words of its own, of which nothing is said. A build time that the system's
/// clock cannot hold is an error too, and so is a search tree whose bits a
/// machine word cannot count; where that begins is left open beyond
/// [`LATEST_BUILD`] and [`LARGE_DATABASE`].
#[verifier::external_body]
fn open_database(bytes: Vec<u8>) -> (r: Result<Database, String>)
    ensures
        match r {
            Ok(database) => database_bytes(database) == bytes@ && mmdb_metadata(bytes@) is Some,
            Err(_) => may_be_refused(bytes@),
        },
{
    match Reader::from_source(bytes) {
        Ok(reader) => Ok(Database { reader }),
        Err(error) => Err(error.to_string()),
    }
}

/// `maxminddb::Reader::metadata`: the type of an open database and when it was
/// built.
#[verifier::external_body]
fn metadata_of(database: &Database) -> (r: (&str, u64))
    ensures
        mmdb_metadata(database_bytes(*database)) == Some((r.0@, r.1)),
{
    let metadata = database.reader.metadata();
    (metadata.database_type.as_str(), metadata.build_epoch)
}

/// `maxminddb::Reader::lookup` and the `decode_path` of its result along
/// `country` and `iso_code`: the code stored there for the address, if any.
#[verifier::external_body]
fn read_country(database: &Database, ip: &IpAddr) -> (code: Option<String>)
    ensures
        match code {
            Some(code) => mmdb_country(database_bytes(*database), ip@) == Some(code@),
            None => mmdb_country(database_bytes(*database), ip@) is None,
        },
{
    let found = match *ip {
        IpAddr::V4(octets) => database.reader.lookup(octets.into()),
        IpAddr::V6(octets) => database.reader.lookup(octets.into()),
    };
    let path = [PathElement::Key("country"), PathElement::Key("iso_code")];
    found.ok()?.decode_path::<String>(&path).ok().flatten()
}

/// An open database. It is opened once and held for all lookups.
pub struct GeoipReader {
    database: Database,
}

impl GeoipReader {
    /// The bytes of the database.
    pub closed spec fn content(&self) -> Seq<u8> {
        database_bytes(self.database)
    }

    /// Opens a database.
    pub fn from_bytes(bytes: Vec<u8>) -> (r: Result<Self, GeoipError>)
        ensures
            match r {
                Ok(reader) => reader.content() == bytes@ && mmdb_metadata(bytes@) is Some,
                Err(_) => may_be_refused(bytes@),
            },
    {
        match open_database(bytes) {
            Ok(database) => Ok(GeoipReader { database }),
            Err(error) => Err(GeoipError::Open(error)),
        }
    }

    /// The type that the database gives itself.
    pub fn database_type(&self) -> (name: &str)
        ensures
            mmdb_metadata(self.content()) is Some,
            name@ == (mmdb_metadata(self.content())->0).0,
    {
        metadata_of(&self.database).0
    }

    /// When the database was built, in seconds after the Unix epoch, unless
    /// that is later than a signed clock can tell.
    pub fn build_time(&self) -> (built: Option<u64>)
        ensures
            mmdb_metadata(self.content()) is Some,
            built == if (mmdb_metadata(self.content())->0).1 <= i64::MAX {
                Some((mmdb_metadata(self.content())->0).1)
            } else {
                None
            },
    {
        let built: u64 = metadata_of(&self.database).1;
        if built <= i64::MAX as u64 {
            Some(built)
        } else {
            None
        }
    }

    /// The country code that the database holds for an address.
    pub fn country(&self, ip: &IpAddr) -> (code: Option<String>)
        ensures
            text::opt_text(code) == mmdb_country(self.content(), ip@),
    {
        read_country(&self.database, ip)
    }
}

/// Whether a country code is among the blocked ones, in any case.
pub open spec fn is_blocked(blocked: Seq<Seq<char>>, code: Seq<char>) -> bool {
    exists|i: int|
        0 <= i < blocked.len() && #[trigger] text::same_ignoring_case(blocked[i], code)
}

/// The first of some addresses' countries that is blocked, as the database
/// spells it.
pub open spec fn first_blocked(
    blocked: Seq<Seq<char>>,
    countries: Seq<Option<Seq<char>>>,
) -> Option<Seq<char>>
    decreases countries.len(),
{
    if countries.len() == 0 {
        None
    } else {
        match countries[0] {
            Some(code) if is_blocked(blocked, code) => Some(code),
            _ => first_blocked(blocked, countries.skip(1)),
        }
    }
}

/// The countries of addresses in a database.
pub open spec fn countries(content: Seq<u8>, ips: Seq<IpAddr>) -> Seq<Option<Seq<char>>> {
    ips.map_values(|ip: IpAddr| mmdb_country(content, ip@))
}

/// Whether a country code is among the blocked ones, in any case.
pub fn country_is_blocked(blocked: &[String], code: &str) -> (yes: bool)
    ensures
        yes == is_blocked(text::texts(blocked@), code@),
{
    let mut i: usize = 0;
    while i < blocked.len()
        invariant
            i <= blocked@.len(),
            forall|j: int|
                0 <= j < i ==> !#[trigger] text::same_ignoring_case(
                    text::texts(blocked@)[j],
                    code@,
                ),
        decreases blocked@.len() - i,
    {
        if text::eq_ignore_case(blocked[i].as_str(), code) {
            assert(text::same_ignoring_case(text::texts(blocked@)[i as int], code@));
            return true;
        }
        i = i + 1;
    }
    false
}

/// The country for which an answer is blocked: that of the first address whose
/// country is among the blocked ones. Nothing is blocked without a database or
/// without blocked countries.
pub fn blocking_country(
    reader: Option<&GeoipReader>,
    blocked_countries: &[String],
    ips: &[IpAddr],
) -> (code: Option<String>)
    ensures
        text::opt_text(code) == match reader {
            None => None,
            Some(r) => first_blocked(
                text::texts(blocked_countries@),
                countries(r.content(), ips@),
            ),
        },
{
    let open = match reader {
        Some(open) => open,
        None => {
            return None;
        },
    };
    let ghost blocked = text::texts(blocked_countries@);
    let ghost all = countries(open.content(), ips@);
    if blocked_countries.len() == 0 {
        proof {
            lemma_nothing_blocked(blocked, all);
        }
        return None;
    }
    let mut i: usize = 0;
    assert(all.skip(0) =~= all);
    while i < ips.len()
        invariant
            i <= ips@.len(),
            reader == Some(open),
            blocked == text::texts(blocked_countries@),
            all == countries(open.content(), ips@),
            first_blocked(blocked, all) == first_blocked(blocked, all.skip(i as int)),
        decreases ips@.len() - i,
    {
        assert(all.skip(i as int)[0] == mmdb_country(open.content(), ips@[i as int]@));
        assert(all.skip(i as int).skip(1) =~= all.skip(i + 1));
        match open.country(&ips[i]) {
            Some(code) => {
                if country_is_blocked(blocked_countries, code.as_str()) {
                    return Some(code);
                }
            },
            None => {},
        }
        i = i + 1;
    }
    assert(all.skip(i as int).len() == 0);
    None
}

proof fn lemma_nothing_blocked(blocked: Seq<Seq<char>>, all: Seq<Option<Seq<char>>>)
    requires
        blocked.len() == 0,
    ensures
        first_blocked(blocked, all) is None,
    decreases all.len(),
{
    if all.len() > 0 {
        lemma_nothing_blocked(blocked, all.skip(1));
    }
}

/// A blocked answer names a country of one of its addresses, and that country
/// is among the blocked ones; an answer without such an address is not
/// blocked.
pub proof fn law_only_blocked_countries_block(
    blocked: Seq<Seq<char>>,
    all: Seq<Option<Seq<char>>>,
)
    ensures
        match first_blocked(blocked, all) {
            Some(code) => is_blocked(blocked, code) && all.contains(Some(code)),
            None => forall|i: int|
                0 <= i < all.len() && (#[trigger] all[i]) is Some ==> !is_blocked(
                    blocked,
                    all[i]->0,
                ),
        },
    decreases all.len(),
{
    if all.len() > 0 {
        let rest = all.skip(1);
        law_only_blocked_countries_block(blocked, rest);
        match first_blocked(blocked, all) {
            Some(code) => {
                if all[0] != Some(code) {
                    let i = choose|i: int| 0 <= i < rest.len() && rest[i] == Some(code);
                    assert(all[i + 1] == Some(code));
                }
            },
            None => {
                assert forall|i: int| 0 <= i < all.len() && (#[trigger] all[i]) is Some implies
                    !is_blocked(blocked, all[i]->0) by {
                    if i > 0 {
                        assert(rest[i - 1] == all[i]);
                    }
                }
            },
        }
    }
}

/// The case in which a country is written in the settings does not matter.
pub proof fn law_case_of_settings_does_not_matter(
    blocked: Seq<Seq<char>>,
    other: Seq<Seq<char>>,
    code: Seq<char>,
)
    requires
        blocked.len() == other.len(),
        forall|i: int|
            0 <= i < blocked.len() ==> text::same_ignoring_case(
                #[trigger] blocked[i],
                #[trigger] other[i],
            ),
    ensures
        is_blocked(blocked, code) == is_blocked(other, code),
{
    if is_blocked(blocked, code) {
        let i = choose|i: int|
            0 <= i < blocked.len() && #[trigger] text::same_ignoring_case(blocked[i], code);
        assert(text::same_ignoring_case(blocked[i], other[i]));
        assert(text::same_ignoring_case(other[i], code));
    }
    if is_blocked(other, code) {
        let i = choose|i: int|
            0 <= i < other.len() && #[trigger] text::same_ignoring_case(other[i], code);
        assert(text::same_ignoring_case(blocked[i], other[i]));
        assert(text::same_ignoring_case(blocked[i], code));
    }
}

/// A country is blocked if and only if one of the configured codes is the same
/// text as its code, but for the case of letters: as long, and differing at most
/// in letters of which one is the capital of the other.
pub proof fn law_a_code_is_blocked_by_itself_alone(blocked: Seq<Seq<char>>, code: Seq<char>)
    ensures
        is_blocked(blocked, code) <==> exists|i: int|
            #![trigger blocked[i]]
            0 <= i < blocked.len() && blocked[i].len() == code.len() && forall|j: int|
                #![trigger blocked[i][j], code[j]]
                0 <= j < code.len() ==> blocked[i][j] == code[j] || ('A' <= code[j] && code[j]
                    <= 'Z' && blocked[i][j] as int == code[j] as int + 32) || ('A' <= blocked[i][j]
                    && blocked[i][j] <= 'Z' && code[j] as int == blocked[i][j] as int + 32),
        is_blocked(blocked, code) <==> exists|i: int|
            0 <= i < blocked.len() && text::upper_text(#[trigger] blocked[i]) == text::upper_text(
                code,
            ),
        is_blocked(seq![code], code),
        !is_blocked(Seq::empty(), code),
{
    assert forall|i: int| 0 <= i < blocked.len() implies text::same_ignoring_case(
        #[trigger] blocked[i],
        code,
    ) == (text::upper_text(blocked[i]) == text::upper_text(code)) by {
        text::law_same_but_for_case(blocked[i], code);
        lemma_upper_case(blocked[i], code);
    }
    assert forall|i: int| 0 <= i < blocked.len() implies text::same_ignoring_case(
        #[trigger] blocked[i],
        code,
    ) == (blocked[i].len() == code.len() && forall|j: int|
        #![trigger blocked[i][j], code[j]]
        0 <= j < code.len() ==> blocked[i][j] == code[j] || ('A' <= code[j] && code[j] <= 'Z'
            && blocked[i][j] as int == code[j] as int + 32) || ('A' <= blocked[i][j]
            && blocked[i][j] <= 'Z' && code[j] as int == blocked[i][j] as int + 32)) by {
        text::law_same_but_for_case(blocked[i], code);
    }
    if is_blocked(blocked, code) {
        let i = choose|i: int|
            0 <= i < blocked.len() && #[trigger] text::same_ignoring_case(blocked[i], code);
        assert(text::same_ignoring_case(blocked[i], code));
        assert(text::upper_text(blocked[i]) == text::upper_text(code));
    }
    if exists|i: int|
        0 <= i < blocked.len() && text::upper_text(#[trigger] blocked[i]) == text::upper_text(
            code,
        ) {
        let i = choose|i: int|
            0 <= i < blocked.len() && text::upper_text(#[trigger] blocked[i]) == text::upper_text(
                code,
            );
        assert(text::same_ignoring_case(blocked[i], code));
    }
    assert(text::same_ignoring_case(seq![code][0], code));
}

proof fn lemma_upper_case(a: Seq<char>, b: Seq<char>)
    ensures
        text::same_ignoring_case(a, b) == (text::upper_text(a) == text::upper_text(b)),
{
    text::law_same_but_for_case(a, b);
    if text::same_ignoring_case(a, b) {
        assert forall|i: int| 0 <= i < a.len() implies text::upper_text(a)[i]
            == text::upper_text(b)[i] by {
            assert(a[i] == a[i] && b[i] == b[i]);
        }
        assert(text::upper_text(a) =~= text::upper_text(b));
    }
    if text::upper_text(a) == text::upper_text(b) {
        assert(text::upper_text(a).len() == a.len());
        assert forall|i: int|
            #![trigger a[i], b[i]]
            0 <= i < a.len() implies a[i] == b[i] || ('A' <= a[i] && a[i] <= 'Z' && b[i] as int
            == a[i] as int + 32) || ('A' <= b[i] && b[i] <= 'Z' && a[i] as int == b[i] as int
            + 32) by {
            assert(text::upper_text(a)[i] == text::upper_text(b)[i]);
        }
    }
}

/// Among codes of capital letters, the blocked ones are those of the list.
pub proof fn law_capital_codes_are_looked_up_as_they_are(
    blocked: Seq<Seq<char>>,
    code: Seq<char>,
)
    requires
        forall|j: int| 0 <= j < code.len() ==> 'A' <= #[trigger] code[j] && code[j] <= 'Z',
        forall|i: int, j: int|
            0 <= i < blocked.len() && 0 <= j < blocked[i].len() ==> 'A' <= #[trigger] blocked[i][j]
                && blocked[i][j] <= 'Z',
    ensures
        is_blocked(blocked, code) == blocked.contains(code),
{
    if is_blocked(blocked, code) {
        let i = choose|i: int|
            0 <= i < blocked.len() && #[trigger] text::same_ignoring_case(blocked[i], code);
        text::law_same_but_for_case(blocked[i], code);
        assert forall|j: int| 0 <= j < code.len() implies blocked[i][j] == code[j] by {}
        assert(blocked[i] =~= code);
    }
    if blocked.contains(code) {
        let i = choose|i: int| 0 <= i < blocked.len() && blocked[i] == code;
        assert(text::same_ignoring_case(blocked[i], code));
    }
}

/// The blocked country of an answer is that of the first address whose country is
/// blocked; addresses before it are passed over, and those behind it do not
/// matter. An answer is not blocked where no address has a blocked country.
pub proof fn law_the_first_blocked_address_decides(
    blocked: Seq<Seq<char>>,
    before: Seq<Option<Seq<char>>>,
    code: Seq<char>,
    after: Seq<Option<Seq<char>>>,
)
    requires
        forall|i: int|
            0 <= i < before.len() && (#[trigger] before[i]) is Some ==> !is_blocked(
                blocked,
                before[i]->0,
            ),
    ensures
        first_blocked(blocked, before) is None,
        is_blocked(blocked, code) ==> first_blocked(blocked, before + seq![Some(code)] + after)
            == Some(code),
        !is_blocked(blocked, code) ==> first_blocked(blocked, before + seq![Some(code)] + after)
            == first_blocked(blocked, after),
        first_blocked(blocked, before + seq![None] + after) == first_blocked(blocked, after),
{
    lemma_passed_over(blocked, before, Seq::empty());
    assert(before + Seq::<Option<Seq<char>>>::empty() =~= before);
    let found = seq![Some(code)] + after;
    lemma_passed_over(blocked, before, found);
    assert(before + found =~= before + seq![Some(code)] + after);
    assert(found[0] == Some(code));
    assert(found.skip(1) =~= after);
    let none = seq![None::<Seq<char>>] + after;
    lemma_passed_over(blocked, before, none);
    assert(before + none =~= before + seq![None] + after);
    assert(none[0] is None);
    assert(none.skip(1) =~= after);
}

proof fn lemma_passed_over(
    blocked: Seq<Seq<char>>,
    before: Seq<Option<Seq<char>>>,
    after: Seq<Option<Seq<char>>>,
)
    requires
        forall|i: int|
            0 <= i < before.len() && (#[trigger] before[i]) is Some ==> !is_blocked(
                blocked,
                before[i]->0,
            ),
    ensures
        first_blocked(blocked, before + after) == first_blocked(blocked, after),
    decreases before.len(),
{
    if before.len() == 0 {
        assert(before + after =~= after);
    } else {
        let rest = before.skip(1);
        assert forall|i: int| 0 <= i < rest.len() && (#[trigger] rest[i]) is Some implies
            !is_blocked(blocked, rest[i]->0) by {
            assert(rest[i] == before[i + 1]);
        }
        lemma_passed_over(blocked, rest, after);
        assert((before + after).skip(1) =~= rest + after);
        assert((before + after)[0] == before[0]);
    }
}

/// Each address is looked up for itself, as four or as sixteen bytes in the order
/// in which they are sent.
pub proof fn law_each_address_is_looked_up(content: Seq<u8>, ips: Seq<IpAddr>, i: int)
    ensures
        countries(content, ips).len() == ips.len(),
        0 <= i < ips.len() ==> countries(content, ips)[i] == match ips[i] {
            IpAddr::V4(octets) => mmdb_country(content, octets@),
            IpAddr::V6(octets) => mmdb_country(content, octets@),
        },
{
}

/// What opens on every machine: a database shorter than a gibibyte that was built
/// no later than every clock can tell. Anything else may be refused.
pub proof fn law_what_may_be_refused(bytes: Seq<u8>)
    ensures
        !may_be_refused(bytes) <==> bytes.len() < 1_073_741_824 && (mmdb_metadata(bytes) matches Some(
            metadata,
        ) && metadata.1 <= 910_692_730_085),
{
}

} // verus!
