//! Reading requests: DNS messages, administration bodies and log queries.
use vstd::prelude::*;
use vstd::utf8;
use crate::base64url;
use crate::http::{Body, Method, Status};
use crate::query_log;
use crate::query_log::{Decision, LogEntry, LogFilter, QueryLog};
use crate::routes;
use crate::routes::Route;
use crate::text;
use crate::upstream;
use crate::upstream::{ProviderEntry, ProviderSpec};

verus! {

/// The longest DNS message that is taken.
pub const MAX_MESSAGE_SIZE: usize = 65_535;

/// The longest body of an administration request that is taken.
pub const MAX_ADMIN_BODY_SIZE: usize = 4096;

/// The media type of a DNS message.
pub const DNS_MESSAGE_CONTENT_TYPE: &'static str = "application/dns-message";

/// The media type of an administration body.
pub const JSON_CONTENT_TYPE: &'static str = "application/json";

/// Why a DNS request is refused. No variant carries a part of the request.
#[derive(Debug, Clone, Copy, PartialEq, Eq, Structural)]
pub enum DohRequestError {
    /// The query string has no `dns` parameter.
    MissingDnsParam,
    /// The parameter is not unpadded base64url.
    InvalidBase64,
    /// The message is too long.
    MessageTooLarge,
    /// The body is not of the media type of a DNS message.
    UnsupportedContentType,
    /// The body could not be read.
    BodyReadError,
}

impl DohRequestError {
    /// The error in words.
    pub fn message(self) -> (message: &'static str)
        ensures
            message@ == match self {
                DohRequestError::MissingDnsParam => "missing dns query parameter"@,
                DohRequestError::InvalidBase64 =>
                    "dns query parameter is not valid unpadded base64url"@,
                DohRequestError::MessageTooLarge =>
                    "dns message exceeds the maximum allowed size"@,
                DohRequestError::UnsupportedContentType =>
                    "unsupported content-type for a DoH POST request"@,
                DohRequestError::BodyReadError => "failed to read the request body"@,
            },
    {
        match self {
            DohRequestError::MissingDnsParam => "missing dns query parameter",
            DohRequestError::InvalidBase64 => "dns query parameter is not valid unpadded base64url",
            DohRequestError::MessageTooLarge => "dns message exceeds the maximum allowed size",
            DohRequestError::UnsupportedContentType =>
                "unsupported content-type for a DoH POST request",
            DohRequestError::BodyReadError => "failed to read the request body",
        }
    }

    /// The status that a refused request is answered with.
    pub open spec fn spec_status(self) -> Status {
        if self == DohRequestError::MessageTooLarge {
            Status::PayloadTooLarge
        } else {
            Status::BadRequest
        }
    }

    /// The status that a refused request is answered with.
    pub fn status(self) -> (status: Status)
        ensures
            status == self.spec_status(),
    {
        match self {
            DohRequestError::MessageTooLarge => Status::PayloadTooLarge,
            _ => Status::BadRequest,
        }
    }
}

/// What follows `dns=` in the first of some pairs that begins so.
pub open spec fn dns_value(pairs: Seq<Seq<char>>) -> Option<Seq<char>>
    decreases pairs.len(),
{
    if pairs.len() == 0 {
        None
    } else if "dns="@.is_prefix_of(pairs[0]) {
        Some(pairs[0].skip(4))
    } else {
        dns_value(pairs.skip(1))
    }
}

/// The value of a query string's `dns` parameter.
pub open spec fn dns_param(query: Seq<char>) -> Option<Seq<char>> {
    dns_value(text::split_on(query, '&'))
}

/// What a decoded parameter comes to.
pub open spec fn message_from(decoded: Option<Seq<u8>>) -> Result<Seq<u8>, DohRequestError> {
    match decoded {
        None => Err(DohRequestError::InvalidBase64),
        Some(bytes) => if bytes.len() > MAX_MESSAGE_SIZE {
            Err(DohRequestError::MessageTooLarge)
        } else {
            Ok(bytes)
        },
    }
}

/// The message that the query string of a `GET` request carries.
pub open spec fn get_message(query: Seq<char>) -> Result<Seq<u8>, DohRequestError> {
    match dns_param(query) {
        None => Err(DohRequestError::MissingDnsParam),
        Some(encoded) => message_from(base64url::decoded(encoded)),
    }
}

/// Whether an outcome is the expected one.
pub open spec fn yields(
    r: Result<Vec<u8>, DohRequestError>,
    expected: Result<Seq<u8>, DohRequestError>,
) -> bool {
    match (r, expected) {
        (Ok(bytes), Ok(wanted)) => bytes@ == wanted,
        (Err(error), Err(wanted)) => error == wanted,
        _ => false,
    }
}

/// The value of a query string's `dns` parameter.
pub fn dns_parameter(query_string: &str) -> (value: Option<String>)
    ensures
        text::opt_text(value) == dns_param(query_string@),
{
    let chars = text::chars_of(query_string);
    let pairs = text::split_chars(chars.as_slice(), '&');
    let prefix = text::chars_of("dns=");
    proof {
        reveal_strlit("dns=");
    }
    let ghost all = text::char_texts(pairs@);
    let mut i: usize = 0;
    assert(all.skip(0) =~= all);
    while i < pairs.len()
        invariant
            i <= pairs@.len(),
            all == text::char_texts(pairs@),
            all == text::split_on(query_string@, '&'),
            prefix@ == "dns="@,
            prefix@.len() == 4,
            dns_value(all) == dns_value(all.skip(i as int)),
        decreases pairs@.len() - i,
    {
        proof {
            assert(all.skip(i as int)[0] == pairs@[i as int]@);
            assert(all.skip(i as int).skip(1) =~= all.skip(i + 1));
        }
        if text::starts_with(pairs[i].as_slice(), prefix.as_slice()) {
            let pair = &pairs[i];
            let value = vstd::slice::slice_subrange(pair.as_slice(), 4, pair.len());
            assert(value@ =~= pair@.skip(4));
            return Some(text::string_of(value));
        }
        i = i + 1;
    }
    None
}

/// What a decoded parameter comes to: a message, unless the parameter was not
/// valid or the message is too long.
pub fn decoded_message(decoded: Option<Vec<u8>>) -> (r: Result<Vec<u8>, DohRequestError>)
    ensures
        yields(
            r,
            message_from(
                match decoded {
                    Some(bytes) => Some(bytes@),
                    None => None,
                },
            ),
        ),
{
    match decoded {
        None => Err(DohRequestError::InvalidBase64),
        Some(bytes) => {
            if bytes.len() > MAX_MESSAGE_SIZE {
                Err(DohRequestError::MessageTooLarge)
            } else {
                Ok(bytes)
            }
        },
    }
}

/// The message that the query string of a `GET` request carries. Nothing is
/// percent-decoded: the alphabet of base64url needs none of it.
pub fn wire_bytes_from_get(query_string: &str) -> (r: Result<Vec<u8>, DohRequestError>)
    ensures
        yields(r, get_message(query_string@)),
{
    match dns_parameter(query_string) {
        None => Err(DohRequestError::MissingDnsParam),
        Some(encoded) => decoded_message(base64url::decode(encoded.as_str())),
    }
}

/// The media type that a `Content-Type` header names, without its parameters.
pub open spec fn media_type(content_type: Seq<char>) -> Seq<char> {
    text::trim(text::split_on(content_type, ';')[0])
}

/// Whether a `Content-Type` header names a media type, in any case.
pub open spec fn names_type(content_type: Option<Seq<char>>, expected: Seq<char>) -> bool {
    content_type matches Some(value) && text::same_ignoring_case(media_type(value), expected)
}

/// Whether a `Content-Type` header names a media type, in any case and with
/// whatever parameters.
pub fn content_type_matches(content_type: Option<&str>, expected: &str) -> (yes: bool)
    ensures
        yes == names_type(text::opt_str(content_type), expected@),
{
    match content_type {
        None => false,
        Some(value) => {
            let chars = text::chars_of(value);
            let pieces = text::split_chars(chars.as_slice(), ';');
            assert(text::split_on(value@, ';').len() >= 1);
            assert(text::char_texts(pieces@)[0] == pieces@[0]@);
            let media = text::trim_chars(pieces[0].as_slice());
            text::eq_ignore_case(text::string_of(media).as_str(), expected)
        },
    }
}

/// Whether a `Content-Type` header names the media type of a DNS message.
pub fn content_type_is_dns_message(content_type: Option<&str>) -> (yes: bool)
    ensures
        yes == names_type(text::opt_str(content_type), DNS_MESSAGE_CONTENT_TYPE@),
{
    content_type_matches(content_type, DNS_MESSAGE_CONTENT_TYPE)
}

/// Whether a `Content-Type` header names the media type of an administration
/// body.
///
/// A page of another origin cannot send a request of this type without asking
/// first, and is never told that it may. Every change goes through this test.
pub fn content_type_is_json(content_type: Option<&str>) -> (yes: bool)
    ensures
        yes == names_type(text::opt_str(content_type), JSON_CONTENT_TYPE@),
{
    content_type_matches(content_type, JSON_CONTENT_TYPE)
}

/// Whether a request to change something is of the one media type that such a
/// request has to be of. DNS queries change nothing.
pub open spec fn may_change(method: Method, route: Route, content_type: Option<Seq<char>>) -> bool {
    method == Method::Post && route != Route::DnsQuery ==> names_type(
        content_type,
        JSON_CONTENT_TYPE@,
    )
}

/// The route that a request may go on to, or how it is refused.
pub fn route_request(method: Method, path: &str, content_type: Option<&str>) -> (r: Result<
    Route,
    Status,
>)
    ensures
        match r {
            Ok(route) => path@ == route.spec_path() && route.allows(method) && may_change(
                method,
                route,
                text::opt_str(content_type),
            ),
            Err(Status::NotFound) => forall|route: Route| path@ != #[trigger] route.spec_path(),
            Err(Status::MethodNotAllowed) => exists|route: Route|
                path@ == #[trigger] route.spec_path() && !route.allows(method),
            Err(status) => status == Status::UnsupportedMediaType && exists|route: Route|
                path@ == #[trigger] route.spec_path() && route.allows(method) && !may_change(
                    method,
                    route,
                    text::opt_str(content_type),
                ),
        },
{
    match routes::serve(method, path) {
        Err(status) => Err(status),
        Ok(route) => {
            if method == Method::Post && route != Route::DnsQuery && !content_type_is_json(
                content_type,
            ) {
                assert(path@ == route.spec_path());
                Err(Status::UnsupportedMediaType)
            } else {
                Ok(route)
            }
        },
    }
}

/// The body of an administration request. One that is too long or broke off is
/// refused alike.
pub fn admin_body(body: Body) -> (r: Result<Vec<u8>, Status>)
    ensures
        match (body, r) {
            (Body::Complete(bytes), Ok(taken)) => taken == bytes && bytes@.len()
                <= MAX_ADMIN_BODY_SIZE,
            (Body::Complete(bytes), Err(status)) => bytes@.len() > MAX_ADMIN_BODY_SIZE && status
                == Status::BadRequest,
            (_, Err(status)) => status == Status::BadRequest,
            _ => false,
        },
{
    match body {
        Body::Complete(bytes) => {
            if bytes.len() > MAX_ADMIN_BODY_SIZE {
                Err(Status::BadRequest)
            } else {
                Ok(bytes)
            }
        },
        Body::TooLarge => Err(Status::BadRequest),
        Body::Failed => Err(Status::BadRequest),
    }
}

/// The message that a body carries.
pub open spec fn post_message(content_type: Option<Seq<char>>, body: Body) -> Result<
    Seq<u8>,
    DohRequestError,
> {
    if !names_type(content_type, DNS_MESSAGE_CONTENT_TYPE@) {
        Err(DohRequestError::UnsupportedContentType)
    } else {
        match body {
            Body::Complete(bytes) => if bytes@.len() > MAX_MESSAGE_SIZE {
                Err(DohRequestError::MessageTooLarge)
            } else {
                Ok(bytes@)
            },
            Body::TooLarge => Err(DohRequestError::MessageTooLarge),
            Body::Failed => Err(DohRequestError::BodyReadError),
        }
    }
}

/// The message that a DNS request carries, or the status of its refusal.
pub open spec fn dns_message(
    method: Method,
    query: Option<Seq<char>>,
    content_type: Option<Seq<char>>,
    body: Body,
) -> Result<Seq<u8>, Status> {
    let message = match method {
        Method::Get => get_message(
            match query {
                Some(text) => text,
                None => Seq::empty(),
            },
        ),
        _ => post_message(content_type, body),
    };
    match (method, message) {
        (Method::Other, _) => Err(Status::MethodNotAllowed),
        (_, Ok(bytes)) => Ok(bytes),
        (_, Err(error)) => Err(error.spec_status()),
    }
}

/// The message that a DNS request carries: in the query string of a `GET`, in
/// the body of a `POST`. A message that is too long has a status of its own.
pub fn serve_dns_query(
    method: Method,
    query: Option<&str>,
    content_type: Option<&str>,
    body: Body,
) -> (r: Result<Vec<u8>, Status>)
    ensures
        match (
            r,
            dns_message(method, text::opt_str(query), text::opt_str(content_type), body),
        ) {
            (Ok(bytes), Ok(wanted)) => bytes@ == wanted && bytes@.len() <= MAX_MESSAGE_SIZE,
            (Err(status), Err(wanted)) => status == wanted,
            _ => false,
        },
{
    let message = match method {
        Method::Get => {
            let query_string = match query {
                Some(query) => query,
                None => "",
            };
            proof {
                reveal_strlit("");
                assert(""@ =~= Seq::<char>::empty());
            }
            wire_bytes_from_get(query_string)
        },
        Method::Post => {
            if content_type_is_dns_message(content_type) {
                match body {
                    Body::Complete(bytes) => {
                        if bytes.len() > MAX_MESSAGE_SIZE {
                            Err(DohRequestError::MessageTooLarge)
                        } else {
                            Ok(bytes)
                        }
                    },
                    Body::TooLarge => Err(DohRequestError::MessageTooLarge),
                    Body::Failed => Err(DohRequestError::BodyReadError),
                }
            } else {
                Err(DohRequestError::UnsupportedContentType)
            }
        },
        Method::Other => {
            return Err(Status::MethodNotAllowed);
        },
    };
    match message {
        Ok(bytes) => Ok(bytes),
        Err(error) => Err(error.status()),
    }
}

/// What a request is answered with.
#[derive(Debug, PartialEq, Eq)]
pub struct Reply {
    /// The status.
    pub status: Status,
    /// The type of the body, where there is one.
    pub content_type: Option<&'static str>,
    /// The body.
    pub body: Vec<u8>,
}

/// An answer that is a status and nothing else.
pub fn status_response(status: Status) -> (reply: Reply)
    ensures
        reply.status == status,
        reply.content_type is None,
        reply.body@ == Seq::<u8>::empty(),
{
    Reply { status, content_type: None, body: Vec::new() }
}

/// The answer to an administration request, given its JSON text. That there is
/// none is an error of the service.
pub fn json_response(encoded: Option<Vec<u8>>) -> (reply: Reply)
    ensures
        match encoded {
            Some(body) => reply.status == Status::Success && text::opt_str(reply.content_type)
                == Some(JSON_CONTENT_TYPE@) && reply.body == body,
            None => reply.status == Status::InternalServerError && reply.content_type is None
                && reply.body@ == Seq::<u8>::empty(),
        },
{
    match encoded {
        Some(body) => Reply {
            status: Status::Success,
            content_type: Some(JSON_CONTENT_TYPE),
            body,
        },
        None => status_response(Status::InternalServerError),
    }
}

/// The answer to a DNS request, given what resolving its message came to. A
/// message that cannot be resolved at all was none.
pub fn dns_query_reply(resolved: Option<Vec<u8>>) -> (reply: Reply)
    ensures
        match resolved {
            Some(answer) => reply.status == Status::Success && text::opt_str(reply.content_type)
                == Some(DNS_MESSAGE_CONTENT_TYPE@) && reply.body == answer,
            None => reply.status == Status::BadRequest && reply.content_type is None
                && reply.body@ == Seq::<u8>::empty(),
        },
{
    match resolved {
        Some(body) => Reply {
            status: Status::Success,
            content_type: Some(DNS_MESSAGE_CONTENT_TYPE),
            body,
        },
        None => status_response(Status::BadRequest),
    }
}

/// How many log entries are shown where the request does not say.
pub const DEFAULT_LOG_LIMIT: usize = 200;

/// The most log entries that are shown.
pub const MAX_LOG_LIMIT: usize = 1000;

/// Why a log query is refused. No variant carries a part of the query.
#[derive(Debug, Clone, Copy, PartialEq, Eq, Structural)]
pub enum LogQueryError {
    /// `domain_contains` is not percent-encoded UTF-8.
    BadEncoding,
    /// `decision` is none of the known ones. It never counts as no filter.
    UnknownDecision,
    /// `voter` is empty or no text. It never counts as no filter.
    UnknownVoter,
    /// `limit` is not a positive number.
    BadLimit,
}

impl LogQueryError {
    /// The error in words.
    pub fn message(self) -> (message: &'static str)
        ensures
            message@ == match self {
                LogQueryError::BadEncoding =>
                    "domain_contains is not valid percent-encoded UTF-8"@,
                LogQueryError::UnknownDecision => "decision does not match a known value"@,
                LogQueryError::UnknownVoter =>
                    "voter does not match a known provider identifier"@,
                LogQueryError::BadLimit => "limit is not a valid positive integer"@,
            },
    {
        match self {
            LogQueryError::BadEncoding => "domain_contains is not valid percent-encoded UTF-8",
            LogQueryError::UnknownDecision => "decision does not match a known value",
            LogQueryError::UnknownVoter => "voter does not match a known provider identifier",
            LogQueryError::BadLimit => "limit is not a valid positive integer",
        }
    }
}

/// What is asked of the log.
#[derive(Debug)]
pub struct LogQuery {
    /// A text that the name contains.
    pub domain_contains: Option<String>,
    /// How the query was answered.
    pub decision: Option<Decision>,
    /// A voter that had a part in it.
    pub voter: Option<String>,
    /// The most entries that are shown.
    pub limit: usize,
}

/// What a [`LogQuery`] says.
#[verifier::ext_equal]
pub struct LogQuestion {
    /// A text that the name contains.
    pub domain_contains: Option<Seq<char>>,
    /// How the query was answered.
    pub decision: Option<Decision>,
    /// A voter that had a part in it.
    pub voter: Option<Seq<char>>,
    /// The most entries that are shown.
    pub limit: nat,
}

impl View for LogQuery {
    type V = LogQuestion;

    open spec fn view(&self) -> LogQuestion {
        LogQuestion {
            domain_contains: text::opt_text(self.domain_contains),
            decision: self.decision,
            voter: text::opt_text(self.voter),
            limit: self.limit as nat,
        }
    }
}

impl Default for LogQuery {
    /// Everything, as far as the default limit goes.
    fn default() -> (query: Self)
        ensures
            query@ == everything(),
    {
        LogQuery { domain_contains: None, decision: None, voter: None, limit: DEFAULT_LOG_LIMIT }
    }
}

/// The question where nothing is asked for.
pub open spec fn everything() -> LogQuestion {
    LogQuestion {
        domain_contains: None,
        decision: None,
        voter: None,
        limit: DEFAULT_LOG_LIMIT as nat,
    }
}

/// The value of a hexadecimal digit in either case.
pub open spec fn hex_value(byte: u8) -> Option<u8> {
    if 0x30 <= byte <= 0x39 {
        Some((byte - 0x30) as u8)
    } else if 0x41 <= byte <= 0x46 {
        Some((byte - 0x37) as u8)
    } else if 0x61 <= byte <= 0x66 {
        Some((byte - 0x57) as u8)
    } else {
        None
    }
}

/// Bytes in which each percent sign with two hexadecimal digits behind it has
/// become the byte that the digits name.
pub open spec fn percent_decoded(bytes: Seq<u8>) -> Seq<u8>
    decreases bytes.len(),
{
    if bytes.len() == 0 {
        Seq::empty()
    } else if bytes.len() >= 3 && bytes[0] == 0x25 && hex_value(bytes[1]) is Some && hex_value(
        bytes[2],
    ) is Some {
        seq![(16 * hex_value(bytes[1])->0 + hex_value(bytes[2])->0) as u8] + percent_decoded(
            bytes.skip(3),
        )
    } else {
        seq![bytes[0]] + percent_decoded(bytes.skip(1))
    }
}

/// The text that a percent-encoded text stands for, if it stands for one.
pub open spec fn percent_text(raw: Seq<char>) -> Option<Seq<char>> {
    let bytes = percent_decoded(utf8::encode_utf8(raw));
    if utf8::valid_utf8(bytes) {
        Some(utf8::decode_utf8(bytes))
    } else {
        None
    }
}

/// Calls `percent_encoding::percent_decode_str` and `decode_utf8` on what it
/// gives: each percent sign with two hexadecimal digits behind it is the byte
/// that they name, and the bytes are read as UTF-8.
#[verifier::external_body]
fn percent_decode(raw: &str) -> (decoded: Option<String>)
    ensures
        text::opt_text(decoded) == percent_text(raw@),
{
    percent_encoding::percent_decode_str(raw).decode_utf8().ok().map(|text| text.into_owned())
}

/// What a name and a decoded value make of a question, where a value that
/// cannot be decoded is none. A name that is not known changes nothing,
/// whatever its value; a value that is not known is refused.
pub open spec fn with_facet(
    question: LogQuestion,
    key: Seq<char>,
    value: Option<Seq<char>>,
) -> Result<LogQuestion, LogQueryError> {
    if key == "domain_contains"@ {
        match value {
            None => Err(LogQueryError::BadEncoding),
            Some(v) => Ok(LogQuestion { domain_contains: Some(v), ..question }),
        }
    } else if key == "decision"@ {
        if value == Some("ALLOWED"@) {
            Ok(LogQuestion { decision: Some(Decision::Allowed), ..question })
        } else if value == Some("BLOCKED"@) {
            Ok(LogQuestion { decision: Some(Decision::Blocked), ..question })
        } else if value == Some("FAILED"@) {
            Ok(LogQuestion { decision: Some(Decision::Failed), ..question })
        } else {
            Err(LogQueryError::UnknownDecision)
        }
    } else if key == "voter"@ {
        match value {
            Some(v) if v.len() > 0 => Ok(LogQuestion { voter: Some(v), ..question }),
            _ => Err(LogQueryError::UnknownVoter),
        }
    } else if key == "limit"@ {
        match value {
            None => Err(LogQueryError::BadLimit),
            Some(v) => match text::parsed_unsigned(v, usize::MAX as nat) {
                None => Err(LogQueryError::BadLimit),
                Some(limit) => if limit == 0 {
                    Err(LogQueryError::BadLimit)
                } else if limit > MAX_LOG_LIMIT {
                    Ok(LogQuestion { limit: MAX_LOG_LIMIT as nat, ..question })
                } else {
                    Ok(LogQuestion { limit, ..question })
                },
            },
        }
    } else {
        Ok(question)
    }
}

/// The name of a pair: what comes before its first equals sign.
pub open spec fn pair_key(pair: Seq<char>) -> Seq<char> {
    pair.take(text::first_index(pair, '='))
}

/// The value of a pair: what comes behind its first equals sign.
pub open spec fn pair_value(pair: Seq<char>) -> Seq<char> {
    let at = text::first_index(pair, '=');
    if at < pair.len() {
        pair.skip(at + 1)
    } else {
        Seq::empty()
    }
}

/// What a pair makes of a question. An empty pair makes nothing of it.
pub open spec fn after_pair(question: LogQuestion, pair: Seq<char>) -> Result<
    LogQuestion,
    LogQueryError,
> {
    if pair.len() == 0 {
        Ok(question)
    } else {
        with_facet(question, pair_key(pair), percent_text(pair_value(pair)))
    }
}

/// What some pairs, one after the other, make of the question for everything.
pub open spec fn after_pairs(pairs: Seq<Seq<char>>) -> Result<LogQuestion, LogQueryError>
    decreases pairs.len(),
{
    if pairs.len() == 0 {
        Ok(everything())
    } else {
        match after_pairs(pairs.drop_last()) {
            Err(error) => Err(error),
            Ok(question) => after_pair(question, pairs.last()),
        }
    }
}

/// The question that a query string asks of the log.
pub open spec fn log_question(query: Option<Seq<char>>) -> Result<LogQuestion, LogQueryError> {
    match query {
        None => Ok(everything()),
        Some(text) => after_pairs(text::split_on(text, '&')),
    }
}

/// Whether an outcome is the expected one.
pub open spec fn asks(
    r: Result<LogQuery, LogQueryError>,
    expected: Result<LogQuestion, LogQueryError>,
) -> bool {
    match (r, expected) {
        (Ok(query), Ok(question)) => query@ == question,
        (Err(error), Err(wanted)) => error == wanted,
        _ => false,
    }
}

/// What a name and a decoded value make of a query.
pub fn apply_facet(query: LogQuery, key: &str, value: Option<String>) -> (r: Result<
    LogQuery,
    LogQueryError,
>)
    ensures
        asks(r, with_facet(query@, key@, text::opt_text(value))),
{
    let mut query = query;
    if text::same_text(key, "domain_contains") {
        match value {
            None => {
                return Err(LogQueryError::BadEncoding);
            },
            Some(value) => {
                query.domain_contains = Some(value);
            },
        }
    } else if text::same_text(key, "decision") {
        let decision = match value {
            None => None,
            Some(value) => decision_of(value.as_str()),
        };
        if decision.is_none() {
            return Err(LogQueryError::UnknownDecision);
        }
        query.decision = decision;
    } else if text::same_text(key, "voter") {
        match value {
            None => {
                return Err(LogQueryError::UnknownVoter);
            },
            Some(value) => {
                if text::chars_of(value.as_str()).len() == 0 {
                    return Err(LogQueryError::UnknownVoter);
                }
                query.voter = Some(value);
            },
        }
    } else if text::same_text(key, "limit") {
        let limit = match value {
            None => None,
            Some(value) => text::parse_usize(text::chars_of(value.as_str()).as_slice()),
        };
        match limit {
            None => {
                return Err(LogQueryError::BadLimit);
            },
            Some(limit) => {
                if limit == 0 {
                    return Err(LogQueryError::BadLimit);
                }
                query.limit = if limit > MAX_LOG_LIMIT {
                    MAX_LOG_LIMIT
                } else {
                    limit
                };
            },
        }
    }
    Ok(query)
}

/// The decision that a word stands for.
fn decision_of(word: &str) -> (decision: Option<Decision>)
    ensures
        decision == if word@ == "ALLOWED"@ {
            Some(Decision::Allowed)
        } else if word@ == "BLOCKED"@ {
            Some(Decision::Blocked)
        } else if word@ == "FAILED"@ {
            Some(Decision::Failed)
        } else {
            None
        },
{
    if text::same_text(word, "ALLOWED") {
        Some(Decision::Allowed)
    } else if text::same_text(word, "BLOCKED") {
        Some(Decision::Blocked)
    } else if text::same_text(word, "FAILED") {
        Some(Decision::Failed)
    } else {
        None
    }
}

/// What a pair of a query string makes of a query.
fn apply_pair(query: LogQuery, pair: &[char]) -> (r: Result<LogQuery, LogQueryError>)
    ensures
        asks(r, after_pair(query@, pair@)),
{
    if pair.len() == 0 {
        return Ok(query);
    }
    let at: usize = text::find_char(pair, '=');
    let key = vstd::slice::slice_subrange(pair, 0, at);
    assert(key@ =~= pair_key(pair@));
    let raw_value: String = if at < pair.len() {
        let value = vstd::slice::slice_subrange(pair, at + 1, pair.len());
        assert(value@ =~= pair_value(pair@));
        text::string_of(value)
    } else {
        let value = vstd::slice::slice_subrange(pair, 0, 0);
        assert(value@ =~= pair_value(pair@));
        text::string_of(value)
    };
    apply_facet(query, text::string_of(key).as_str(), percent_decode(raw_value.as_str()))
}

/// The question that a query string asks of the log. What is not given stays
/// open; what is given and not understood is refused, never taken for not
/// given.
pub fn parse_log_query(query_string: Option<&str>) -> (r: Result<LogQuery, LogQueryError>)
    ensures
        asks(r, log_question(text::opt_str(query_string))),
{
    let mut parsed = LogQuery::default();
    let given = match query_string {
        None => {
            return Ok(parsed);
        },
        Some(given) => given,
    };
    let chars = text::chars_of(given);
    let pairs = text::split_chars(chars.as_slice(), '&');
    let ghost all = text::char_texts(pairs@);
    let mut i: usize = 0;
    assert(all.take(0) =~= Seq::<Seq<char>>::empty());
    while i < pairs.len()
        invariant
            i <= pairs@.len(),
            all == text::char_texts(pairs@),
            text::opt_str(query_string) == Some(given@),
            all == text::split_on(given@, '&'),
            after_pairs(all.take(i as int)) == Ok::<LogQuestion, LogQueryError>(parsed@),
        decreases pairs@.len() - i,
    {
        proof {
            assert(all.take(i + 1).drop_last() =~= all.take(i as int));
            assert(all.take(i + 1).last() == pairs@[i as int]@);
        }
        match apply_pair(parsed, pairs[i].as_slice()) {
            Ok(query) => {
                parsed = query;
            },
            Err(error) => {
                proof {
                    lemma_an_error_stays(all, i + 1);
                }
                return Err(error);
            },
        }
        i = i + 1;
    }
    assert(all.take(i as int) =~= all);
    Ok(parsed)
}

proof fn lemma_an_error_stays(pairs: Seq<Seq<char>>, n: int)
    requires
        0 <= n <= pairs.len(),
        after_pairs(pairs.take(n)) is Err,
    ensures
        after_pairs(pairs) == after_pairs(pairs.take(n)),
    decreases pairs.len(),
{
    if n == pairs.len() {
        assert(pairs.take(n) =~= pairs);
    } else {
        assert(pairs.drop_last().take(n) =~= pairs.take(n));
        lemma_an_error_stays(pairs.drop_last(), n);
    }
}

/// What is shown of the log.
#[derive(Debug)]
pub struct LogQueryResponse {
    /// The entries, oldest first.
    pub entries: Vec<LogEntry>,
    /// Whether there were more.
    pub truncated: bool,
}

/// Whether a voter is one that an entry may name: one of the list or a preset.
pub open spec fn known_voter(
    providers: Seq<ProviderEntry>,
    presets: Seq<ProviderSpec>,
    voter: Seq<char>,
) -> bool {
    upstream::configured(providers, voter) || upstream::is_preset(presets, voter)
}

/// What a question filters by.
pub open spec fn facets(question: LogQuestion) -> query_log::Facets {
    query_log::Facets {
        domain_contains: question.domain_contains,
        decision: question.decision,
        voter: question.voter,
    }
}

/// The part of the log that a query string asks for. Where more entries are
/// found than are shown, the newest are shown. A query that is not understood
/// is refused, and so is one for a voter that no entry can name.
pub fn serve_admin_log(
    query_string: Option<&str>,
    log: &QueryLog,
    now: i128,
    providers: &[ProviderEntry],
    presets: &[ProviderSpec],
) -> (r: Result<LogQueryResponse, Status>)
    ensures
        match log_question(text::opt_str(query_string)) {
            Err(_) => r == Err::<LogQueryResponse, Status>(Status::BadRequest),
            Ok(question) => if question.voter matches Some(voter) && !known_voter(
                providers@,
                presets@,
                voter,
            ) {
                r == Err::<LogQueryResponse, Status>(Status::BadRequest)
            } else {
                let found = log@.filter(query_log::recent(now as int)).filter(
                    query_log::wanted(facets(question)),
                );
                r matches Ok(page) && query_log::records(page.entries@) == query_log::newest(
                    found,
                    question.limit,
                ) && page.truncated == (found.len() > question.limit)
            },
        },
{
    let parsed = match parse_log_query(query_string) {
        Ok(parsed) => parsed,
        Err(_) => {
            return Err(Status::BadRequest);
        },
    };
    match &parsed.voter {
        Some(voter) => {
            if !upstream::is_configured(providers, voter.as_str()) && upstream::builtin_preset(
                presets,
                voter.as_str(),
            ).is_none() {
                return Err(Status::BadRequest);
            }
        },
        None => {},
    }
    let filter = LogFilter {
        domain_contains: match &parsed.domain_contains {
            Some(part) => Some(part.as_str()),
            None => None,
        },
        decision: parsed.decision,
        voter: match &parsed.voter {
            Some(voter) => Some(voter.as_str()),
            None => None,
        },
    };
    assert(filter@ == facets(parsed@));
    let found = log.search(now, &filter);
    let truncated = found.len() > parsed.limit;
    Ok(LogQueryResponse { entries: query_log::newest_entries(found, parsed.limit), truncated })
}

/// A message of an allowed length that is sent as the `dns` parameter is read
/// back as it was.
pub proof fn law_a_sent_message_is_read(message: Seq<u8>)
    requires
        message.len() <= MAX_MESSAGE_SIZE,
    ensures
        get_message("dns="@ + base64url::encoded(message)) == Ok::<Seq<u8>, DohRequestError>(
            message,
        ),
{
    let value = base64url::encoded(message);
    let query = "dns="@ + value;
    reveal_strlit("dns=");
    base64url::law_what_is_encoded_is_decoded(message);
    assert(!query.contains('&')) by {
        assert forall|i: int| 0 <= i < query.len() implies query[i] != '&' by {
            if i >= 4 {
                assert(query[i] == value[i - 4]);
                assert(value.contains(value[i - 4]));
            }
        }
    }
    text::lemma_first_index(query, '&');
    assert(text::split_on(query, '&') == seq![query]);
    assert(query.skip(4) =~= value);
    assert("dns="@.is_prefix_of(query));
    assert(dns_param(query) == Some(value));
}

/// A question that is not refused never lets through what one of its pairs
/// asks to leave out: where a pair names a part of the name, a decision or a
/// voter, the question has one. It always shows at least one entry, and never
/// more than the most that are shown.
pub proof fn law_filters_are_never_widened(pairs: Seq<Seq<char>>, i: int)
    requires
        0 <= i < pairs.len(),
        pairs[i].len() > 0,
        after_pairs(pairs) is Ok,
    ensures
        pair_key(pairs[i]) == "domain_contains"@ ==> after_pairs(
            pairs,
        )->Ok_0.domain_contains is Some,
        pair_key(pairs[i]) == "decision"@ ==> after_pairs(pairs)->Ok_0.decision is Some,
        pair_key(pairs[i]) == "voter"@ ==> after_pairs(pairs)->Ok_0.voter is Some,
        1 <= after_pairs(pairs)->Ok_0.limit <= MAX_LOG_LIMIT,
    decreases pairs.len(),
{
    reveal_strlit("domain_contains");
    reveal_strlit("decision");
    reveal_strlit("voter");
    reveal_strlit("limit");
    assert("domain_contains"@.len() == 15 && "decision"@.len() == 8 && "voter"@.len() == 5
        && "limit"@.len() == 5 && "voter"@[0] == 'v' && "limit"@[0] == 'l');
    lemma_limit_in_range(pairs);
    let rest = pairs.drop_last();
    assert(after_pairs(rest) is Ok);
    if i < rest.len() {
        assert(rest[i] == pairs[i]);
        law_filters_are_never_widened(rest, i);
    }
}

proof fn lemma_limit_in_range(pairs: Seq<Seq<char>>)
    requires
        after_pairs(pairs) is Ok,
    ensures
        1 <= after_pairs(pairs)->Ok_0.limit <= MAX_LOG_LIMIT,
    decreases pairs.len(),
{
    if pairs.len() > 0 {
        lemma_limit_in_range(pairs.drop_last());
    }
}

/// A text without percent signs stands for itself.
pub proof fn law_plain_text_stands_for_itself(raw: Seq<char>)
    requires
        !raw.contains('%'),
    ensures
        percent_text(raw) == Some(raw),
{
    lemma_no_percent_bytes(raw);
    lemma_nothing_to_decode(utf8::encode_utf8(raw));
    utf8::encode_utf8_valid_utf8(raw);
    utf8::encode_utf8_decode_utf8(raw);
}

proof fn lemma_nothing_to_decode(bytes: Seq<u8>)
    requires
        !bytes.contains(0x25u8),
    ensures
        percent_decoded(bytes) == bytes,
    decreases bytes.len(),
{
    if bytes.len() > 0 {
        assert(bytes.contains(bytes[0]));
        let rest = bytes.skip(1);
        assert(!rest.contains(0x25u8)) by {
            if rest.contains(0x25u8) {
                let k = choose|k: int| 0 <= k < rest.len() && rest[k] == 0x25u8;
                assert(bytes[k + 1] == 0x25u8);
            }
        }
        lemma_nothing_to_decode(rest);
        assert(seq![bytes[0]] + rest =~= bytes);
    } else {
        assert(percent_decoded(bytes) =~= bytes);
    }
}

proof fn lemma_no_percent_bytes(chars: Seq<char>)
    requires
        !chars.contains('%'),
    ensures
        !utf8::encode_utf8(chars).contains(0x25u8),
    decreases chars.len(),
{
    if chars.len() > 0 {
        assert(chars.contains(chars[0]));
        let rest = chars.drop_first();
        assert(!rest.contains('%')) by {
            if rest.contains('%') {
                let k = choose|k: int| 0 <= k < rest.len() && rest[k] == '%';
                assert(chars[k + 1] == '%');
            }
        }
        lemma_no_percent_bytes(rest);
        let scalar = chars[0] as u32;
        let first = utf8::encode_scalar(scalar);
        utf8::char_u32_cast(chars[0], scalar);
        utf8::char_u32_cast('%', '%' as u32);
        assert(scalar != 0x25u32);
        lemma_no_percent_byte(scalar);
        let bytes = utf8::encode_utf8(chars);
        if bytes.contains(0x25u8) {
            let k = choose|k: int| 0 <= k < bytes.len() && bytes[k] == 0x25u8;
            if k < first.len() {
                assert(first[k] == 0x25u8);
            } else {
                assert(utf8::encode_utf8(rest)[k - first.len()] == 0x25u8);
            }
        }
    }
}

proof fn lemma_no_percent_byte(scalar: u32)
    requires
        scalar != 0x25u32,
    ensures
        forall|k: int|
            0 <= k < utf8::encode_scalar(scalar).len() ==> utf8::encode_scalar(scalar)[k] != 0x25u8,
{
    assert(scalar <= 0x7f && scalar != 0x25u32 ==> (scalar & 0x7F) as u8 != 0x25u8) by (bit_vector);
    assert(0xC0u8 | ((scalar >> 6) & 0x1F) as u8 != 0x25u8) by (bit_vector);
    assert(0xE0u8 | ((scalar >> 12) & 0x0F) as u8 != 0x25u8) by (bit_vector);
    assert(0xF0u8 | ((scalar >> 18) & 0x7) as u8 != 0x25u8) by (bit_vector);
    assert(0x80u8 | (scalar & 0x3F) as u8 != 0x25u8) by (bit_vector);
    assert(0x80u8 | ((scalar >> 6) & 0x3F) as u8 != 0x25u8) by (bit_vector);
    assert(0x80u8 | ((scalar >> 12) & 0x3F) as u8 != 0x25u8) by (bit_vector);
}

/// The parameter of a query string is what follows `dns=` in the first pair that
/// begins so; pairs before it are passed over, and those behind it do not matter.
pub proof fn law_where_the_message_stands(first: Seq<char>, value: Seq<char>, rest: Seq<char>)
    requires
        !first.contains('&'),
        !value.contains('&'),
    ensures
        dns_param("dns="@ + value) == Some(value),
        dns_param("dns="@ + value + seq!['&'] + rest) == Some(value),
        !"dns="@.is_prefix_of(first) ==> dns_param(first) is None && dns_param(
            first + seq!['&'] + rest,
        ) == dns_param(rest),
{
    reveal_strlit("dns=");
    let pair = "dns="@ + value;
    assert(!pair.contains('&')) by {
        if pair.contains('&') {
            let k = choose|k: int| 0 <= k < pair.len() && pair[k] == '&';
            if k >= 4 {
                assert(value[k - 4] == '&');
            }
        }
    }
    assert("dns="@.is_prefix_of(pair));
    assert(pair.skip(4) =~= value);
    text::law_a_text_is_split_at_every_separator(pair, '&', rest);
    text::law_a_text_is_split_at_every_separator(first, '&', rest);
    let pieces = seq![pair] + text::split_on(rest, '&');
    assert(pieces[0] == pair);
    let others = seq![first] + text::split_on(rest, '&');
    assert(others[0] == first);
    assert(others.skip(1) =~= text::split_on(rest, '&'));
    assert(seq![first].skip(1) =~= Seq::<Seq<char>>::empty());
    assert(dns_value(seq![first].skip(1)) is None);
}

/// What a `GET` request comes to: its message where the parameter is the encoding
/// of one of at most 65535 bytes, and else the error that says what is wrong.
pub proof fn law_what_a_get_request_comes_to(query: Seq<char>, message: Seq<u8>)
    ensures
        get_message(query) == Ok::<Seq<u8>, DohRequestError>(message) <==> message.len() <= 65_535
            && dns_param(query) == Some(base64url::encoded(message)),
        get_message(query) == Err::<Seq<u8>, DohRequestError>(DohRequestError::MissingDnsParam)
            <==> dns_param(query) is None,
        message.len() > 65_535 && dns_param(query) == Some(base64url::encoded(message))
            ==> get_message(query) == Err::<Seq<u8>, DohRequestError>(
            DohRequestError::MessageTooLarge,
        ),
        dns_param(query) is Some && (forall|bytes: Seq<u8>| #[trigger]
            base64url::encoded(bytes) != dns_param(query)->0) <==> get_message(query) == Err::<
            Seq<u8>,
            DohRequestError,
        >(DohRequestError::InvalidBase64),
        get_message(query) matches Err(error) ==> error == DohRequestError::MissingDnsParam
            || error == DohRequestError::InvalidBase64 || error
            == DohRequestError::MessageTooLarge,
{
    if let Some(value) = dns_param(query) {
        base64url::law_only_encodings_are_decoded(value, message);
        if let Some(bytes) = base64url::decoded(value) {
            base64url::law_only_encodings_are_decoded(value, bytes);
            assert(base64url::encoded(bytes) == value);
        } else {
            assert forall|bytes: Seq<u8>| #[trigger] base64url::encoded(bytes) != value by {
                base64url::law_only_encodings_are_decoded(value, bytes);
            }
        }
    }
}

/// A decoded parameter comes to itself unless it has more than 65535 bytes.
pub proof fn law_what_a_decoded_parameter_comes_to(decoded: Option<Seq<u8>>)
    ensures
        decoded is None ==> message_from(decoded) == Err::<Seq<u8>, DohRequestError>(
            DohRequestError::InvalidBase64,
        ),
        decoded matches Some(bytes) ==> message_from(decoded) == if bytes.len() <= 65_535 {
            Ok::<Seq<u8>, DohRequestError>(bytes)
        } else {
            Err(DohRequestError::MessageTooLarge)
        },
{
}

/// A header names a media type where what stands before its first semicolon is
/// that type, but for white space round it and for case. Parameters do not matter,
/// and without a header no type is named.
pub proof fn law_what_a_header_names(
    before: Seq<char>,
    named: Seq<char>,
    after: Seq<char>,
    parameters: Seq<char>,
    expected: Seq<char>,
)
    requires
        !before.contains(';') && !named.contains(';') && !after.contains(';'),
        forall|i: int| 0 <= i < before.len() ==> text::white_space(#[trigger] before[i]),
        forall|i: int| 0 <= i < after.len() ==> text::white_space(#[trigger] after[i]),
        named.len() > 0 ==> !text::white_space(named[0]) && !text::white_space(named.last()),
    ensures
        names_type(Some(before + named + after), expected) <==> text::same_ignoring_case(
            named,
            expected,
        ),
        names_type(Some(before + named + after + seq![';'] + parameters), expected)
            <==> text::same_ignoring_case(named, expected),
        !names_type(None, expected),
{
    let value = before + named + after;
    assert(!value.contains(';')) by {
        if value.contains(';') {
            let k = choose|k: int| 0 <= k < value.len() && value[k] == ';';
            if k < before.len() {
                assert(before[k] == ';');
            } else if k < before.len() + named.len() {
                assert(named[k - before.len()] == ';');
            } else {
                assert(after[k - before.len() - named.len()] == ';');
            }
        }
    }
    text::law_a_text_is_split_at_every_separator(value, ';', parameters);
    text::law_trimming_takes_white_space_alone(before, named, after);
}

/// A request to change something must be declared as JSON; one that only reads, and
/// a DNS query, need not be.
pub proof fn law_what_a_change_must_be_declared_as(
    method: Method,
    route: Route,
    content_type: Option<Seq<char>>,
)
    ensures
        method != Method::Post ==> may_change(method, route, content_type),
        route == Route::DnsQuery ==> may_change(method, route, content_type),
        method == Method::Post && route != Route::DnsQuery ==> (may_change(
            method,
            route,
            content_type,
        ) <==> names_type(content_type, "application/json"@)),
{
}

/// Only a message that is too long has a status of its own.
pub proof fn law_how_a_refused_message_is_answered(error: DohRequestError)
    ensures
        error.spec_status() == Status::PayloadTooLarge <==> error
            == DohRequestError::MessageTooLarge,
        error.spec_status() == Status::PayloadTooLarge || error.spec_status()
            == Status::BadRequest,
{
}

/// The message of a `GET` request is that of its query string, whatever its body;
/// that of a `POST` request is its body, whatever its query string, where it is
/// declared as a DNS message, was read whole and has at most 65535 bytes. A message
/// that is too long is answered so; another that is refused is a bad request; and
/// other methods are not allowed.
pub proof fn law_where_a_message_comes_from(
    query: Option<Seq<char>>,
    content_type: Option<Seq<char>>,
    body: Body,
)
    ensures
        query matches Some(text) ==> dns_message(Method::Get, query, content_type, body) == match
        get_message(text) {
            Ok(message) => Ok::<Seq<u8>, Status>(message),
            Err(DohRequestError::MessageTooLarge) => Err(Status::PayloadTooLarge),
            Err(_) => Err(Status::BadRequest),
        },
        query is None ==> dns_message(Method::Get, query, content_type, body) == Err::<
            Seq<u8>,
            Status,
        >(Status::BadRequest),
        !names_type(content_type, "application/dns-message"@) ==> dns_message(
            Method::Post,
            query,
            content_type,
            body,
        ) == Err::<Seq<u8>, Status>(Status::BadRequest),
        names_type(content_type, "application/dns-message"@) ==> dns_message(
            Method::Post,
            query,
            content_type,
            body,
        ) == match body {
            Body::Complete(bytes) => if bytes@.len() <= 65_535 {
                Ok::<Seq<u8>, Status>(bytes@)
            } else {
                Err(Status::PayloadTooLarge)
            },
            Body::TooLarge => Err(Status::PayloadTooLarge),
            Body::Failed => Err(Status::BadRequest),
        },
        dns_message(Method::Other, query, content_type, body) == Err::<Seq<u8>, Status>(
            Status::MethodNotAllowed,
        ),
{
    if query is None {
        reveal_strlit("dns=");
        text::law_a_text_is_split_at_every_separator(Seq::empty(), '&', Seq::empty());
        let pieces = seq![Seq::<char>::empty()];
        assert(!"dns="@.is_prefix_of(pieces[0]));
        assert(pieces.skip(1) =~= Seq::<Seq<char>>::empty());
        assert(dns_value(pieces.skip(1)) is None);
        assert(dns_value(pieces) is None);
    }
}

/// An outcome is as expected where both are the same message, or the same error.
pub proof fn law_outcomes_of_requests(
    r: Result<Vec<u8>, DohRequestError>,
    expected: Result<Seq<u8>, DohRequestError>,
    q: Result<LogQuery, LogQueryError>,
    question: Result<LogQuestion, LogQueryError>,
)
    ensures
        yields(r, expected) <==> (r is Ok <==> expected is Ok) && (r is Ok ==> (r->Ok_0)@
            == expected->Ok_0) && (r is Err ==> r->Err_0 == expected->Err_0),
        asks(q, question) <==> (q is Ok <==> question is Ok) && (q is Ok ==> (q->Ok_0)@
            == question->Ok_0) && (q is Err ==> q->Err_0 == question->Err_0),
{
}

/// What is asked of the log is what the fields of a query hold, and by default
/// everything, 200 entries of it.
pub proof fn law_a_question_is_what_its_query_holds(query: LogQuery)
    ensures
        match query.domain_contains {
            Some(part) => query@.domain_contains == Some(part@),
            None => query@.domain_contains is None,
        },
        query@.decision == query.decision,
        match query.voter {
            Some(voter) => query@.voter == Some(voter@),
            None => query@.voter is None,
        },
        query@.limit == query.limit,
        everything().domain_contains is None,
        everything().decision is None,
        everything().voter is None,
        everything().limit == 200,
        facets(query@).domain_contains == query@.domain_contains,
        facets(query@).decision == query@.decision,
        facets(query@).voter == query@.voter,
{
}

/// A voter that an entry may name is one of the list or one of the presets.
pub proof fn law_which_voters_are_known(
    providers: Seq<ProviderEntry>,
    presets: Seq<ProviderSpec>,
    voter: Seq<char>,
)
    ensures
        known_voter(providers, presets, voter) <==> (exists|i: int|
            0 <= i < providers.len() && (#[trigger] providers[i]).spec.id@ == voter) || (exists|
            i: int,
        | 0 <= i < presets.len() && (#[trigger] presets[i]).id@ == voter),
{
}

/// A query string is read pair by pair, and a pair behind the others changes what
/// they ask for. Without a query string, or with an empty one, everything is asked
/// for.
pub proof fn law_pairs_are_read_in_order(
    first: Seq<char>,
    pairs: Seq<Seq<char>>,
    pair: Seq<char>,
)
    requires
        !first.contains('&'),
    ensures
        log_question(None) == Ok::<LogQuestion, LogQueryError>(everything()),
        log_question(Some(first)) == after_pairs(seq![first]),
        first.len() == 0 ==> log_question(Some(first)) == Ok::<LogQuestion, LogQueryError>(
            everything(),
        ),
        forall|rest: Seq<char>|
            log_question(Some(#[trigger] (first + seq!['&'] + rest))) == after_pairs(
                seq![first] + text::split_on(rest, '&'),
            ),
        after_pairs(pairs) is Err ==> after_pairs(pairs.push(pair)) == after_pairs(pairs),
        after_pairs(pairs) is Ok && pair.len() == 0 ==> after_pairs(pairs.push(pair))
            == after_pairs(pairs),
{
    text::law_a_text_is_split_at_every_separator(first, '&', Seq::empty());
    assert(seq![first].drop_last() =~= Seq::<Seq<char>>::empty());
    assert(seq![first].last() == first);
    assert(after_pairs(seq![first].drop_last()) == Ok::<LogQuestion, LogQueryError>(everything()));
    assert forall|rest: Seq<char>|
        log_question(Some(#[trigger] (first + seq!['&'] + rest))) == after_pairs(
            seq![first] + text::split_on(rest, '&'),
        ) by {
        text::law_a_text_is_split_at_every_separator(first, '&', rest);
    }
    assert(pairs.push(pair).drop_last() =~= pairs);
}

/// What a pair makes of what the pairs before it ask for. The part of a name, the
/// decision, the voter and the limit are each set by the pair of that name, and
/// nothing else is; a pair of another name changes nothing. A decision that is not
/// known, an empty voter and a limit that is no positive number are refused. A
/// limit over 1000 is 1000. What a value stands for that holds no percent sign is
/// the value itself.
pub proof fn law_what_a_pair_asks_for(
    pairs: Seq<Seq<char>>,
    key: Seq<char>,
    value: Seq<char>,
)
    requires
        after_pairs(pairs) is Ok,
        !key.contains('='),
        !value.contains('%'),
    ensures
        ({
            let before = after_pairs(pairs)->Ok_0;
            let after = after_pairs(pairs.push(key + seq!['='] + value));
            &&& key == "domain_contains"@ ==> (after matches Ok(q) && q.domain_contains == Some(
                value,
            ) && q.decision == before.decision && q.voter == before.voter && q.limit
                == before.limit)
            &&& key == "decision"@ && value == "ALLOWED"@ ==> (after matches Ok(q) && q.decision
                == Some(Decision::Allowed))
            &&& key == "decision"@ && value == "BLOCKED"@ ==> (after matches Ok(q) && q.decision
                == Some(Decision::Blocked))
            &&& key == "decision"@ && value == "FAILED"@ ==> (after matches Ok(q) && q.decision
                == Some(Decision::Failed))
            &&& key == "decision"@ && value != "ALLOWED"@ && value != "BLOCKED"@ && value
                != "FAILED"@ ==> after == Err::<LogQuestion, LogQueryError>(
                LogQueryError::UnknownDecision,
            )
            &&& key == "decision"@ && after is Ok ==> after->Ok_0.domain_contains
                == before.domain_contains && after->Ok_0.voter == before.voter && after->Ok_0.limit
                == before.limit
            &&& key == "voter"@ && value.len() > 0 ==> (after matches Ok(q) && q.voter == Some(
                value,
            ) && q.domain_contains == before.domain_contains && q.decision == before.decision
                && q.limit == before.limit)
            &&& key == "voter"@ && value.len() == 0 ==> after == Err::<LogQuestion, LogQueryError>(
                LogQueryError::UnknownVoter,
            )
            &&& key == "limit"@ ==> match text::parsed_unsigned(value, usize::MAX as nat) {
                None => after == Err::<LogQuestion, LogQueryError>(LogQueryError::BadLimit),
                Some(n) => if n == 0 {
                    after == Err::<LogQuestion, LogQueryError>(LogQueryError::BadLimit)
                } else {
                    after matches Ok(q) && q.limit == (if n <= 1000 {
                        n
                    } else {
                        1000
                    }) && q.domain_contains == before.domain_contains && q.decision
                        == before.decision && q.voter == before.voter
                },
            }
            &&& key != "domain_contains"@ && key != "decision"@ && key != "voter"@ && key
                != "limit"@ ==> after == after_pairs(pairs)
        }),
{
    let pair = key + seq!['='] + value;
    assert(pairs.push(pair).drop_last() =~= pairs);
    assert(pair.len() > 0);
    text::law_where_a_character_is_found(key, '=', value);
    assert(pair_key(pair) =~= key);
    assert(pair_value(pair) =~= value);
    law_plain_text_stands_for_itself(value);
    reveal_strlit("domain_contains");
    reveal_strlit("decision");
    reveal_strlit("voter");
    reveal_strlit("limit");
    assert("domain_contains"@.len() == 15 && "decision"@.len() == 8 && "voter"@.len() == 5
        && "limit"@.len() == 5 && "voter"@[0] == 'v' && "limit"@[0] == 'l');
    reveal_strlit("ALLOWED");
    reveal_strlit("BLOCKED");
    reveal_strlit("FAILED");
    assert("ALLOWED"@.len() == 7 && "BLOCKED"@.len() == 7 && "FAILED"@.len() == 6 && "ALLOWED"@[0]
        == 'A' && "BLOCKED"@[0] == 'B');
}

/// A pair without an equals sign names something and gives nothing. The name is
/// never decoded; a value that cannot be decoded is refused where the name is
/// known, and else it does not matter.
pub proof fn law_pairs_that_give_nothing(
    pairs: Seq<Seq<char>>,
    key: Seq<char>,
    value: Seq<char>,
)
    requires
        after_pairs(pairs) is Ok,
        !key.contains('='),
        key.len() > 0,
        percent_text(value) is None,
    ensures
        after_pairs(pairs.push(key)) == after_pairs(pairs.push(key + seq!['='])),
        key == "domain_contains"@ ==> after_pairs(pairs.push(key + seq!['='] + value)) == Err::<
            LogQuestion,
            LogQueryError,
        >(LogQueryError::BadEncoding),
        key == "decision"@ ==> after_pairs(pairs.push(key + seq!['='] + value)) == Err::<
            LogQuestion,
            LogQueryError,
        >(LogQueryError::UnknownDecision),
        key == "voter"@ ==> after_pairs(pairs.push(key + seq!['='] + value)) == Err::<
            LogQuestion,
            LogQueryError,
        >(LogQueryError::UnknownVoter),
        key == "limit"@ ==> after_pairs(pairs.push(key + seq!['='] + value)) == Err::<
            LogQuestion,
            LogQueryError,
        >(LogQueryError::BadLimit),
        key != "domain_contains"@ && key != "decision"@ && key != "voter"@ && key != "limit"@
            ==> after_pairs(pairs.push(key + seq!['='] + value)) == after_pairs(pairs),
{
    let pair = key + seq!['='] + value;
    let open = key + seq!['='];
    assert(pairs.push(pair).drop_last() =~= pairs);
    assert(pairs.push(open).drop_last() =~= pairs);
    assert(pairs.push(key).drop_last() =~= pairs);
    text::law_where_a_character_is_found(key, '=', value);
    text::law_where_a_character_is_found(key, '=', Seq::empty());
    assert(key + seq!['='] + Seq::<char>::empty() =~= open);
    assert(pair_key(pair) =~= key);
    assert(pair_value(pair) =~= value);
    assert(pair_key(open) =~= key);
    assert(pair_value(open) =~= Seq::<char>::empty());
    assert(pair_key(key) =~= key);
    assert(pair_value(key) =~= Seq::<char>::empty());
    reveal_strlit("domain_contains");
    reveal_strlit("decision");
    reveal_strlit("voter");
    reveal_strlit("limit");
    assert("domain_contains"@.len() == 15 && "decision"@.len() == 8 && "voter"@.len() == 5
        && "limit"@.len() == 5 && "voter"@[0] == 'v' && "limit"@[0] == 'l');
}

/// A byte that is written as a percent sign and two hexadecimal digits in either
/// case is that byte; any other byte than a percent sign is itself.
pub proof fn law_escapes_stand_for_bytes(
    byte: u8,
    high: u8,
    low: u8,
    rest: Seq<u8>,
)
    requires
        hex_value(high) is Some,
        hex_value(low) is Some,
    ensures
        percent_decoded(seq![0x25u8, high, low] + rest) == seq![
            (16 * hex_value(high)->0 + hex_value(low)->0) as u8,
        ] + percent_decoded(rest),
        byte != 0x25 ==> percent_decoded(seq![byte] + rest) == seq![byte] + percent_decoded(rest),
        percent_decoded(Seq::empty()) == Seq::<u8>::empty(),
        hex_value(high)->0 < 16,
        hex_value(high)->0 < 10 ==> high == 48 + hex_value(high)->0,
        hex_value(high)->0 >= 10 ==> high == 55 + hex_value(high)->0 || high == 87 + hex_value(
            high,
        )->0,
{
    let escaped = seq![0x25u8, high, low] + rest;
    assert(escaped.skip(3) =~= rest);
    assert(escaped[0] == 0x25 && escaped[1] == high && escaped[2] == low);
    let plain = seq![byte] + rest;
    assert(plain.skip(1) =~= rest);
    assert(plain[0] == byte);
}

/// A percent-encoded text stands for a text if and only if its decoded bytes are
/// UTF-8, and then for the text that they spell.
pub proof fn law_what_a_percent_encoded_text_stands_for(raw: Seq<char>)
    ensures
        percent_text(raw) is Some <==> utf8::valid_utf8(percent_decoded(utf8::encode_utf8(raw))),
        percent_text(raw) matches Some(text) ==> text == utf8::decode_utf8(
            percent_decoded(utf8::encode_utf8(raw)),
        ),
{
}

/// What a decoded value makes of a question: it sets what its name says and nothing
/// else, and a name that is not known sets nothing.
pub proof fn law_what_a_value_sets(
    question: LogQuestion,
    key: Seq<char>,
    value: Option<Seq<char>>,
)
    ensures
        key == "domain_contains"@ ==> (with_facet(question, key, value) is Ok <==> value is Some)
            && (with_facet(question, key, value) matches Ok(q) ==> q.domain_contains == value
            && q.decision == question.decision && q.voter == question.voter && q.limit
            == question.limit),
        key == "decision"@ ==> (with_facet(question, key, value) is Ok <==> value == Some(
            "ALLOWED"@,
        ) || value == Some("BLOCKED"@) || value == Some("FAILED"@)),
        key == "decision"@ && value == Some("ALLOWED"@) ==> (with_facet(
            question,
            key,
            value,
        )->Ok_0).decision == Some(Decision::Allowed),
        key == "decision"@ && value == Some("BLOCKED"@) ==> (with_facet(
            question,
            key,
            value,
        )->Ok_0).decision == Some(Decision::Blocked),
        key == "decision"@ && value == Some("FAILED"@) ==> (with_facet(
            question,
            key,
            value,
        )->Ok_0).decision == Some(Decision::Failed),
        key == "decision"@ ==> (with_facet(question, key, value) matches Ok(q) ==> q.domain_contains
            == question.domain_contains && q.voter == question.voter && q.limit
            == question.limit),
        key == "voter"@ ==> (with_facet(question, key, value) is Ok <==> (value matches Some(v)
            && v.len() > 0)) && (with_facet(question, key, value) matches Ok(q) ==> q.voter == value
            && q.domain_contains == question.domain_contains && q.decision == question.decision
            && q.limit == question.limit),
        key == "limit"@ ==> (with_facet(question, key, value) is Ok <==> (value matches Some(v) && (
        text::parsed_unsigned(v, usize::MAX as nat) matches Some(n) && n > 0))) && (with_facet(
            question,
            key,
            value,
        ) matches Ok(q) ==> q.limit <= 1000 && (q.limit == 1000 || Some(q.limit)
            == text::parsed_unsigned(value->0, usize::MAX as nat)) && q.limit
            <= text::parsed_unsigned(value->0, usize::MAX as nat)->0 && q.domain_contains
            == question.domain_contains && q.decision == question.decision && q.voter
            == question.voter),
        with_facet(question, key, value) matches Err(error) ==> (match error {
            LogQueryError::BadEncoding => key == "domain_contains"@,
            LogQueryError::UnknownDecision => key == "decision"@,
            LogQueryError::UnknownVoter => key == "voter"@,
            LogQueryError::BadLimit => key == "limit"@,
        }),
        key != "domain_contains"@ && key != "decision"@ && key != "voter"@ && key != "limit"@
            ==> with_facet(question, key, value) == Ok::<LogQuestion, LogQueryError>(question),
{
    reveal_strlit("domain_contains");
    reveal_strlit("decision");
    reveal_strlit("voter");
    reveal_strlit("limit");
    assert("domain_contains"@.len() == 15 && "decision"@.len() == 8 && "voter"@.len() == 5
        && "limit"@.len() == 5 && "voter"@[0] == 'v' && "limit"@[0] == 'l');
    reveal_strlit("ALLOWED");
    reveal_strlit("BLOCKED");
    reveal_strlit("FAILED");
    assert("ALLOWED"@.len() == 7 && "BLOCKED"@.len() == 7 && "FAILED"@.len() == 6 && "ALLOWED"@[0]
        == 'A' && "BLOCKED"@[0] == 'B');
}

} // verus!
