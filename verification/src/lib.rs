//! Core of a local DNS-over-HTTPS filter service: its override lists, country
//! filter, personal zone, encrypted stores, update rules and admin interface.
//!
//! Everything here computes on values that the caller has read or will write;
//! sockets, files and the credential store are the caller's.
use vstd::prelude::*;
use hickory_proto::rr::Name;
use hickory_proto::ProtoError;

pub mod admin;
pub mod app_state;
pub mod base64url;
pub mod config;
pub mod digest;
pub mod dispatch;
pub mod encrypted_file;
pub mod geoip;
pub mod geoip_credentials;
pub mod geoip_download;
pub mod geoip_updater;
pub mod http;
pub mod install_region;
pub mod key_store;
pub mod lifecycle;
pub mod listener;
pub mod local_state;
pub mod log_persist;
pub mod logging;
pub mod overrides;
pub mod paths;
pub mod pause_watch;
pub mod persist_dto;
pub mod personal_zone_persist;
pub mod personal_zone_stats;
pub mod query_log;
pub mod routes;
pub mod text;
pub mod upstream;
pub mod wire;

verus! {

/// The error of `hickory_proto`.
#[verifier::external_type_specification]
#[verifier::external_body]
pub struct ExProtoError(ProtoError);

/// The ASCII form that `hickory_proto` gives a domain name, or nothing where
/// the text is not a name.
pub uninterp spec fn ascii_name(input: Seq<char>) -> Option<Seq<char>>;

/// `hickory_proto::rr::Name::from_utf8` and the `to_ascii` of its result: the
/// labels of a name in ASCII, internationalised ones in their encoded form, or
/// an error where the text is not a name.
#[verifier::external_body]
fn name_to_ascii(input: &str) -> (r: Result<String, ProtoError>)
    ensures
        match r {
            Ok(ascii) => ascii_name(input@) == Some(ascii@),
            Err(_) => ascii_name(input@) is None,
        },
{
    Name::from_utf8(input).map(|name| name.to_ascii())
}

/// The canonical spelling of a name in ASCII: lower case, no dot at its end.
pub open spec fn canonical(ascii: Seq<char>) -> Seq<char> {
    text::trim_end_of(text::lower_text(ascii), seq!['.'])
}

/// The canonical spelling of a domain, if it is one.
pub open spec fn normalized(input: Seq<char>) -> Option<Seq<char>> {
    match ascii_name(input) {
        Some(ascii) => Some(canonical(ascii)),
        None => None,
    }
}

/// The canonical spelling of a name in ASCII.
pub fn canonical_name(ascii: &str) -> (name: String)
    ensures
        name@ == canonical(ascii@),
{
    let chars = text::chars_of(ascii);
    let lower = text::to_lower(&chars);
    let dot: Vec<char> = vec!['.'];
    assert(dot@ =~= seq!['.']);
    text::string_of(text::trim_end_chars(&lower, &dot))
}

/// The spelling under which a domain is compared and stored: its labels in
/// ASCII and lower case, without a dot at the end.
pub fn normalize_domain(input: &str) -> (r: Result<String, ProtoError>)
    ensures
        match r {
            Ok(name) => normalized(input@) == Some(name@),
            Err(_) => normalized(input@) is None,
        },
{
    match name_to_ascii(input) {
        Ok(ascii) => Ok(canonical_name(ascii.as_str())),
        Err(error) => Err(error),
    }
}

/// What the rules on lifetimes read of a resource record.
#[derive(Debug, Clone, Copy, PartialEq, Eq, Structural)]
pub struct Record {
    /// The record's time to live, in seconds.
    pub ttl: u32,
}

/// What the rules on lifetimes read of a zone's start of authority.
#[derive(Debug, Clone, Copy, PartialEq, Eq, Structural)]
pub struct SOA {
    /// The zone's minimum field, in seconds.
    pub minimum: u32,
}

/// The shortest time to live in a set of records; none for an empty set.
pub fn min_rrset_ttl(records: &[Record]) -> (r: Option<u32>)
    ensures
        match r {
            Some(ttl) => {
                &&& exists|i: int| 0 <= i < records@.len() && (#[trigger] records@[i]).ttl == ttl
                &&& forall|i: int| 0 <= i < records@.len() ==> ttl <= (#[trigger] records@[i]).ttl
            },
            None => records@.len() == 0,
        },
{
    if records.len() == 0 {
        return None;
    }
    let mut ttl: u32 = records[0].ttl;
    assert(records@[0].ttl == ttl);
    let mut i: usize = 1;
    while i < records.len()
        invariant
            1 <= i <= records@.len(),
            exists|j: int| 0 <= j < i && (#[trigger] records@[j]).ttl == ttl,
            forall|j: int| 0 <= j < i ==> ttl <= (#[trigger] records@[j]).ttl,
        decreases records@.len() - i,
    {
        if records[i].ttl < ttl {
            ttl = records[i].ttl;
            assert(records@[i as int].ttl == ttl);
        }
        i = i + 1;
    }
    Some(ttl)
}

/// How long a negative answer may be kept: the zone's own minimum.
pub fn negative_cache_ttl(soa: &SOA) -> (ttl: u32)
    ensures
        ttl == soa.minimum,
{
    soa.minimum
}

/// Whether a stale cache entry is served in place of a fresh upstream error:
/// only under the fail-open policy, only for an entry that has expired, and
/// only when the upstream did fail.
pub fn should_serve_stale(
    fail_open: bool,
    cache_entry_expired: bool,
    upstream_failed: bool,
) -> (served: bool)
    ensures
        served == (fail_open && cache_entry_expired && upstream_failed),
{
    fail_open && cache_entry_expired && upstream_failed
}

/// A canonical spelling is its own: what was normalised once stays as it is in
/// case and trailing dots.
pub proof fn law_canonical_is_stable(ascii: Seq<char>)
    ensures
        canonical(canonical(ascii)) == canonical(ascii),
{
    let lower = text::lower_text(ascii);
    let name = canonical(ascii);
    text::lemma_trim_end_of(lower, seq!['.']);
    assert(text::lower_text(name) =~= name) by {
        assert forall|i: int| 0 <= i < name.len() implies text::ascii_lower(name[i])
            == name[i] by {
            assert(name[i] == lower[i]);
        }
    }
}

/// The canonical spelling of a name has its letters in lower case and no dot at its
/// end, and is else as the name is.
pub proof fn law_what_a_canonical_name_is(kept: Seq<char>, dots: Seq<char>)
    requires
        forall|i: int| 0 <= i < dots.len() ==> (#[trigger] dots[i]) == '.',
        kept.len() > 0 ==> kept.last() != '.',
    ensures
        canonical(kept + dots).len() == kept.len(),
        forall|i: int|
            0 <= i < kept.len() ==> #[trigger] canonical(kept + dots)[i] as int == if 'A' <= kept[i]
                && kept[i] <= 'Z' {
                kept[i] as int + 32
            } else {
                kept[i] as int
            },
{
    let lower = text::lower_text(kept);
    let end = text::lower_text(dots);
    let dropped = seq!['.'];
    assert(dropped[0] == '.');
    assert forall|i: int| 0 <= i < end.len() implies dropped.contains(#[trigger] end[i]) by {
        assert(dots[i] == '.');
        assert(dropped[0] == end[i]);
    }
    if kept.len() > 0 {
        text::law_case_changes_letters_alone(kept, kept.len() - 1);
        assert(lower.last() != '.');
    }
    text::law_only_the_end_is_taken_off(lower, end, dropped);
    assert(text::lower_text(kept + dots) =~= lower + end);
    assert forall|i: int| 0 <= i < kept.len() implies #[trigger] canonical(kept + dots)[i] as int
        == if 'A' <= kept[i] && kept[i] <= 'Z' {
        kept[i] as int + 32
    } else {
        kept[i] as int
    } by {
        text::law_case_changes_letters_alone(kept, i);
    }
}

/// What is a name has a canonical spelling, that of its form in ASCII; what is none
/// has none.
pub proof fn law_what_has_a_canonical_spelling(input: Seq<char>)
    ensures
        normalized(input) is Some <==> ascii_name(input) is Some,
        ascii_name(input) matches Some(ascii) ==> normalized(input) == Some(canonical(ascii)),
{
}

} // verus!
