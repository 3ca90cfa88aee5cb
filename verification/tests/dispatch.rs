use dnsqb_service::dispatch::{
    admin_body, content_type_is_dns_message, content_type_is_json, content_type_matches,
    decoded_message, dns_parameter, dns_query_reply, parse_log_query, route_request,
    json_response, serve_admin_log, serve_dns_query, status_response, wire_bytes_from_get,
    DohRequestError, LogQueryError, LogQueryResponse, Reply, DEFAULT_LOG_LIMIT, MAX_ADMIN_BODY_SIZE, MAX_LOG_LIMIT, MAX_MESSAGE_SIZE,
};
use dnsqb_service::http::{Body, Method, Status};
use dnsqb_service::query_log::{
    Decision, DecisionSource, LogEntry, QueryLog, VoterRecord, VoterVerdict,
};
use dnsqb_service::routes::{route_at, routes, serve, Route};
use dnsqb_service::upstream::{BlockSignature, ProviderEntry, ProviderSpec};
use base64::Engine;

const NOW: i128 = 1_700_000_000_000_000_000;

fn base64url(bytes: &[u8]) -> String {
    base64::engine::general_purpose::URL_SAFE_NO_PAD.encode(bytes)
}

fn query_bytes() -> Vec<u8> {
    // A query for example.com, type A.
    let mut bytes = vec![0, 0, 1, 0, 0, 1, 0, 0, 0, 0, 0, 0];
    bytes.extend(b"\x07example\x03com\x00\x00\x01\x00\x01");
    bytes
}

#[test]
fn wire_bytes_from_get_round_trips_doh_get_urls_own_encoder() {
    let message_bytes = query_bytes();
    let query_string = format!("dns={}", base64url(&message_bytes));
    match wire_bytes_from_get(&query_string) {
        Ok(decoded) => assert_eq!(decoded, message_bytes),
        Err(err) => panic!("an encoded query string must decode: {}", err.message()),
    }
}

#[test]
fn wire_bytes_from_get_rejects_a_missing_dns_param() {
    assert!(matches!(
        wire_bytes_from_get("other=1"),
        Err(DohRequestError::MissingDnsParam)
    ));
}

#[test]
fn wire_bytes_from_get_rejects_invalid_base64() {
    assert!(matches!(
        wire_bytes_from_get("dns=not!valid!base64"),
        Err(DohRequestError::InvalidBase64)
    ));
}

#[test]
fn wire_bytes_from_get_rejects_an_oversized_message() {
    let oversized = vec![0u8; MAX_MESSAGE_SIZE + 1];
    let query_string = format!("dns={}", base64url(&oversized));
    assert!(matches!(
        wire_bytes_from_get(&query_string),
        Err(DohRequestError::MessageTooLarge)
    ));
    let largest = vec![0u8; MAX_MESSAGE_SIZE];
    assert_eq!(
        wire_bytes_from_get(&format!("dns={}", base64url(&largest))),
        Ok(largest)
    );
}

#[test]
fn the_first_dns_parameter_counts() {
    assert_eq!(dns_parameter("a=1&dns=AAAA&dns=BBBB").as_deref(), Some("AAAA"));
    assert_eq!(dns_parameter("xdns=AAAA"), None);
    assert_eq!(dns_parameter(""), None);
    assert_eq!(wire_bytes_from_get("dns=AAAA"), Ok(vec![0, 0, 0]));
    assert_eq!(wire_bytes_from_get("dns="), Ok(Vec::new()));
    assert_eq!(
        decoded_message(None),
        Err(DohRequestError::InvalidBase64)
    );
}

#[test]
fn padding_and_the_other_alphabet_are_refused() {
    for encoded in ["AA==", "+/+/", "A", "AB"] {
        assert_eq!(
            wire_bytes_from_get(&format!("dns={encoded}")),
            Err(DohRequestError::InvalidBase64),
            "{encoded}"
        );
    }
    assert_eq!(wire_bytes_from_get("dns=-_-_"), Ok(vec![0xfb, 0xff, 0xbf]));
}

#[test]
fn content_type_accepts_the_exact_media_type() {
    assert!(content_type_is_dns_message(Some("application/dns-message")));
}

#[test]
fn content_type_accepts_different_case() {
    assert!(content_type_is_dns_message(Some("Application/DNS-Message")));
}

#[test]
fn content_type_accepts_a_charset_parameter() {
    assert!(content_type_is_dns_message(Some(
        "application/dns-message; charset=utf-8"
    )));
}

#[test]
fn content_type_rejects_the_wrong_type() {
    assert!(!content_type_is_dns_message(Some("application/json")));
}

#[test]
fn content_type_rejects_a_missing_header() {
    assert!(!content_type_is_dns_message(None));
}

#[test]
fn json_is_known_by_its_media_type_alone() {
    assert!(content_type_is_json(Some(" Application/JSON ;charset=utf-8")));
    assert!(!content_type_is_json(Some("text/plain")));
    assert!(!content_type_is_json(Some("text/plain; application/json")));
    assert!(content_type_matches(Some("a/b"), "A/B"));
}

const EXPECTED_ADMIN_ROUTES: &[(&str, &[Method])] = &[
    ("/dns-query", &[Method::Get, Method::Post]),
    ("/health", &[Method::Get]),
    ("/admin/status", &[Method::Get]),
    ("/admin/config", &[Method::Post]),
    ("/admin/reset", &[Method::Post]),
    ("/admin/shutdown", &[Method::Post]),
    ("/admin/overrides", &[Method::Get]),
    ("/admin/overrides/add", &[Method::Post]),
    ("/admin/overrides/remove", &[Method::Post]),
    ("/admin/cache-config", &[Method::Get]),
    ("/admin/cache-config/apply", &[Method::Post]),
    ("/admin/geoip", &[Method::Get]),
    ("/admin/geoip/add", &[Method::Post]),
    ("/admin/geoip/remove", &[Method::Post]),
    ("/admin/geoip/maxmind", &[Method::Get, Method::Post]),
    ("/admin/geoip/maxmind/clear", &[Method::Post]),
    ("/admin/providers", &[Method::Get]),
    ("/admin/providers/add", &[Method::Post]),
    ("/admin/providers/remove", &[Method::Post]),
    ("/admin/providers/set-enabled", &[Method::Post]),
    ("/admin/log", &[Method::Get]),
    ("/admin/log/clear", &[Method::Post]),
    ("/admin/uninstall-local-state", &[Method::Post]),
    ("/admin/ui", &[Method::Get]),
    ("/admin/ui/main.js", &[Method::Get]),
    ("/admin/ui/style.css", &[Method::Get]),
];

#[test]
fn serve_matches_the_documented_admin_route_allowlist() {
    let table: Vec<(&str, Vec<Method>)> = routes()
        .into_iter()
        .map(|route| (route.path(), route.methods()))
        .collect();
    let expected: Vec<(&str, Vec<Method>)> = EXPECTED_ADMIN_ROUTES
        .iter()
        .map(|(path, methods)| (*path, methods.to_vec()))
        .collect();
    assert_eq!(table, expected);
}

#[test]
fn serve_enforces_the_route_table_it_matched_above() {
    for &(path, allowed) in EXPECTED_ADMIN_ROUTES {
        for method in [Method::Get, Method::Post, Method::Other] {
            match serve(method, path) {
                Ok(route) => {
                    assert!(allowed.contains(&method), "{method:?} {path}");
                    assert_eq!(route.path(), path);
                }
                Err(status) => {
                    assert!(!allowed.contains(&method), "{method:?} {path}");
                    assert_eq!(status, Status::MethodNotAllowed);
                }
            }
        }
    }
}

#[test]
fn serve_returns_404_for_every_path_outside_the_documented_allowlist() {
    for path in [
        "/",
        "/admin",
        "/admin/",
        "/admin/config/",
        "/dns-query/",
        "/ADMIN/STATUS",
        "/admin/secret",
        "/health/",
    ] {
        assert_eq!(
            route_request(Method::Get, path, None),
            Err(Status::NotFound),
            "{path} unexpectedly matched a route"
        );
        assert_eq!(route_at(path), None);
    }
}

#[test]
fn serve_returns_404_for_a_path_other_than_dns_query() {
    assert_eq!(
        route_request(Method::Get, "/other", None),
        Err(Status::NotFound)
    );
}

#[test]
fn serve_returns_405_for_an_unsupported_method_on_dns_query() {
    assert_eq!(
        route_request(Method::Other, "/dns-query", None),
        Err(Status::MethodNotAllowed)
    );
}

#[test]
fn every_change_has_to_be_json() {
    for &(path, allowed) in EXPECTED_ADMIN_ROUTES {
        if !allowed.contains(&Method::Post) || path == "/dns-query" {
            continue;
        }
        for content_type in [None, Some("text/plain"), Some("")] {
            assert_eq!(
                route_request(Method::Post, path, content_type),
                Err(Status::UnsupportedMediaType),
                "{path}"
            );
        }
        assert!(route_request(Method::Post, path, Some("application/json")).is_ok());
    }
    assert_eq!(
        route_request(Method::Post, "/dns-query", Some("application/dns-message")),
        Ok(Route::DnsQuery)
    );
    assert_eq!(
        route_request(Method::Get, "/admin/geoip/maxmind", None),
        Ok(Route::AdminGeoipMaxmind)
    );
}

#[test]
fn serve_admin_config_rejects_a_missing_content_type_even_with_a_valid_json_body() {
    assert_eq!(
        route_request(Method::Post, "/admin/config", None),
        Err(Status::UnsupportedMediaType)
    );
}

#[test]
fn serve_admin_config_rejects_a_non_json_content_type_even_with_a_valid_json_body() {
    assert_eq!(
        route_request(Method::Post, "/admin/config", Some("text/plain")),
        Err(Status::UnsupportedMediaType)
    );
}

#[test]
fn serve_admin_status_rejects_non_get_methods() {
    assert_eq!(
        route_request(Method::Post, "/admin/status", None),
        Err(Status::MethodNotAllowed)
    );
}

#[test]
fn serve_admin_config_rejects_non_post_methods() {
    assert_eq!(
        route_request(Method::Get, "/admin/config", None),
        Err(Status::MethodNotAllowed)
    );
}

#[test]
fn serve_admin_reset_rejects_non_post_methods() {
    assert_eq!(
        route_request(Method::Get, "/admin/reset", None),
        Err(Status::MethodNotAllowed)
    );
}

#[test]
fn serve_admin_shutdown_rejects_non_post_methods() {
    assert_eq!(
        route_request(Method::Get, "/admin/shutdown", None),
        Err(Status::MethodNotAllowed)
    );
}

#[test]
fn serve_admin_shutdown_rejects_a_missing_content_type() {
    assert_eq!(
        route_request(Method::Post, "/admin/shutdown", None),
        Err(Status::UnsupportedMediaType)
    );
}

#[test]
fn serve_admin_uninstall_local_state_rejects_non_post_methods() {
    assert_eq!(
        route_request(Method::Get, "/admin/uninstall-local-state", None),
        Err(Status::MethodNotAllowed)
    );
}

#[test]
fn serve_returns_400_for_a_malformed_get_query_string() {
    assert_eq!(
        serve_dns_query(Method::Get, Some("other=1"), None, Body::Complete(Vec::new())),
        Err(Status::BadRequest)
    );
    assert_eq!(
        serve_dns_query(Method::Get, None, None, Body::Complete(Vec::new())),
        Err(Status::BadRequest)
    );
}

#[test]
fn serve_returns_400_for_a_post_with_the_wrong_content_type() {
    assert_eq!(
        serve_dns_query(
            Method::Post,
            None,
            Some("application/json"),
            Body::Complete(b"irrelevant".to_vec())
        ),
        Err(Status::BadRequest)
    );
}

#[test]
fn serve_returns_413_for_an_oversized_post_body() {
    for body in [
        Body::Complete(vec![0u8; MAX_MESSAGE_SIZE + 1]),
        Body::TooLarge,
    ] {
        assert_eq!(
            serve_dns_query(
                Method::Post,
                None,
                Some("application/dns-message"),
                body
            ),
            Err(Status::PayloadTooLarge)
        );
    }
    assert_eq!(Status::PayloadTooLarge.code(), 413);
}

#[test]
fn a_body_that_broke_off_is_a_bad_request() {
    assert_eq!(
        serve_dns_query(
            Method::Post,
            None,
            Some("application/dns-message"),
            Body::Failed
        ),
        Err(Status::BadRequest)
    );
    assert_eq!(
        serve_dns_query(Method::Other, None, None, Body::Failed),
        Err(Status::MethodNotAllowed)
    );
}

#[test]
fn serve_answers_a_valid_get_request_with_200_and_the_encoded_response() {
    let query = format!("dns={}", base64url(&query_bytes()));
    assert_eq!(
        serve_dns_query(
            Method::Get,
            Some(&query),
            None,
            Body::Complete(Vec::new())
        ),
        Ok(query_bytes())
    );
    assert_eq!(
        dns_query_reply(Some(vec![1, 2])),
        Reply {
            status: Status::Success,
            content_type: Some("application/dns-message"),
            body: vec![1, 2],
        }
    );
    assert_eq!(dns_query_reply(None), status_response(Status::BadRequest));
    assert_eq!(Status::Success.code(), 200);
}

#[test]
fn an_answer_says_what_it_holds() {
    assert_eq!(
        json_response(Some(b"{}".to_vec())),
        Reply {
            status: Status::Success,
            content_type: Some("application/json"),
            body: b"{}".to_vec(),
        }
    );
    assert_eq!(
        json_response(None),
        status_response(Status::InternalServerError)
    );
    let bare = status_response(Status::NotFound);
    assert_eq!(bare.status, Status::NotFound);
    assert_eq!(bare.content_type, None);
    assert!(bare.body.is_empty());
}

#[test]
fn serve_answers_a_valid_post_request_with_200() {
    assert_eq!(
        serve_dns_query(
            Method::Post,
            None,
            Some("application/dns-message"),
            Body::Complete(query_bytes())
        ),
        Ok(query_bytes())
    );
}

#[test]
fn an_administration_body_has_a_limit() {
    assert_eq!(
        admin_body(Body::Complete(vec![b' '; MAX_ADMIN_BODY_SIZE])),
        Ok(vec![b' '; MAX_ADMIN_BODY_SIZE])
    );
    for body in [
        Body::Complete(vec![b' '; MAX_ADMIN_BODY_SIZE + 1]),
        Body::TooLarge,
        Body::Failed,
    ] {
        assert_eq!(admin_body(body), Err(Status::BadRequest));
    }
}

#[test]
fn a_status_has_its_number() {
    assert_eq!(Status::BadRequest.code(), 400);
    assert_eq!(Status::NotFound.code(), 404);
    assert_eq!(Status::MethodNotAllowed.code(), 405);
    assert_eq!(Status::UnsupportedMediaType.code(), 415);
    assert_eq!(Status::InternalServerError.code(), 500);
}

#[test]
fn errors_have_their_words() {
    assert_eq!(
        DohRequestError::MissingDnsParam.status(),
        Status::BadRequest
    );
    assert_eq!(
        DohRequestError::MessageTooLarge.status(),
        Status::PayloadTooLarge
    );
    for error in [
        DohRequestError::MissingDnsParam,
        DohRequestError::InvalidBase64,
        DohRequestError::MessageTooLarge,
        DohRequestError::UnsupportedContentType,
        DohRequestError::BodyReadError,
    ] {
        assert!(!error.message().is_empty());
    }
    assert_eq!(
        LogQueryError::BadLimit.message(),
        "limit is not a valid positive integer"
    );
}

#[test]
fn parse_log_query_defaults_to_no_filters_and_the_default_limit() {
    let Ok(parsed) = parse_log_query(None) else {
        panic!("None must parse");
    };
    assert!(parsed.domain_contains.is_none());
    assert!(parsed.decision.is_none());
    assert!(parsed.voter.is_none());
    assert_eq!(parsed.limit, DEFAULT_LOG_LIMIT);
}

#[test]
fn parse_log_query_percent_decodes_domain_contains() {
    let Ok(parsed) = parse_log_query(Some("domain_contains=a%20b")) else {
        panic!("must parse")
    };
    assert_eq!(parsed.domain_contains.as_deref(), Some("a b"));
}

#[test]
fn parse_log_query_clamps_a_limit_above_the_hard_cap() {
    let Ok(parsed) = parse_log_query(Some("limit=999999")) else {
        panic!("must parse")
    };
    assert_eq!(parsed.limit, MAX_LOG_LIMIT);
}

#[test]
fn parse_log_query_rejects_a_zero_limit() {
    match parse_log_query(Some("limit=0")) {
        Err(LogQueryError::BadLimit) => {}
        other => panic!("expected BadLimit, got {other:?}"),
    }
}

#[test]
fn parse_log_query_rejects_invalid_percent_encoding() {
    match parse_log_query(Some("domain_contains=%ff%fe")) {
        Err(LogQueryError::BadEncoding) => {}
        other => panic!("expected BadEncoding, got {other:?}"),
    }
}

#[test]
fn an_unknown_name_is_ignored_whatever_its_value() {
    let Ok(query) = parse_log_query(Some("nonsense=%ff")) else {
        panic!("an unknown name is no error");
    };
    assert_eq!(query.domain_contains, None);
    assert!(query.decision.is_none());
    assert_eq!(query.voter, None);
    assert_eq!(query.limit, 200);
}

#[test]
fn a_value_that_cannot_be_decoded_is_refused_for_what_it_is_given_for() {
    assert!(matches!(
        parse_log_query(Some("decision=%ff")),
        Err(LogQueryError::UnknownDecision)
    ));
    assert!(matches!(
        parse_log_query(Some("voter=%ff")),
        Err(LogQueryError::UnknownVoter)
    ));
    assert!(matches!(
        parse_log_query(Some("limit=%ff")),
        Err(LogQueryError::BadLimit)
    ));
}

#[test]
fn parse_log_query_decision_literals_match_decision_views_actual_wire_strings() {
    for (decision, wire) in [
        (Decision::Allowed, "ALLOWED"),
        (Decision::Blocked, "BLOCKED"),
        (Decision::Failed, "FAILED"),
    ] {
        let Ok(parsed) = parse_log_query(Some(&format!("decision={wire}"))) else {
            panic!("must parse the value that is shown")
        };
        assert_eq!(parsed.decision, Some(decision));
    }
}

#[test]
fn parse_log_query_ignores_an_unrecognized_key() {
    let Ok(parsed) = parse_log_query(Some("nonsense=1&domain_contains=x")) else {
        panic!("must parse")
    };
    assert_eq!(parsed.domain_contains.as_deref(), Some("x"));
}

#[test]
fn parts_of_a_query_string_are_read_one_by_one() {
    let Ok(parsed) = parse_log_query(Some("&&limit=+7&voter=%71uad9&limit=12&=1&x")) else {
        panic!("must parse")
    };
    assert_eq!(parsed.limit, 12);
    assert_eq!(parsed.voter.as_deref(), Some("quad9"));
    let Ok(parsed) = parse_log_query(Some("domain_contains=%C3%A9%zz%4")) else {
        panic!("must parse")
    };
    assert_eq!(parsed.domain_contains.as_deref(), Some("\u{e9}%zz%4"));
}

fn sample_log_entry(domain: &str, decision: Decision) -> LogEntry {
    LogEntry {
        timestamp: NOW,
        domain: domain.to_string(),
        qtype: 1,
        decision,
        decision_source: DecisionSource::Quorum,
        voters: vec![VoterRecord {
            provider_id: "quad9".to_string(),
            verdict: VoterVerdict::Allow,
            allow_ip_count: Some(1),
            error_message: None,
        }],
        geoip_country: None,
        resolved_ip_country: None,
        latency_ms: 5,
    }
}

fn spec(id: &str) -> ProviderSpec {
    ProviderSpec {
        id: id.to_string(),
        display_name: id.to_string(),
        doh_url: format!("https://{id}.example/dns-query"),
        category: "SECURITY".to_string(),
        block_signature: BlockSignature::NullIpOrNxdomain,
    }
}

fn admin_log(query: Option<&str>, log: &QueryLog) -> Result<LogQueryResponse, Status> {
    let providers = vec![ProviderEntry {
        spec: spec("my-own"),
        enabled: true,
    }];
    serve_admin_log(query, log, NOW, &providers, &[spec("quad9"), spec("adguard")])
}

fn page(query: Option<&str>, log: &QueryLog) -> LogQueryResponse {
    match admin_log(query, log) {
        Ok(page) => page,
        Err(status) => panic!("must be answered, got {status:?}"),
    }
}

#[test]
fn serve_admin_log_returns_an_empty_array_for_an_empty_log() {
    let body = page(None, &QueryLog::default());
    assert!(body.entries.is_empty());
    assert!(!body.truncated);
}

#[test]
fn serve_admin_log_reports_the_real_geoip_country_for_a_geoip_sourced_entry() {
    let mut log = QueryLog::default();
    let mut entry = sample_log_entry("blocked.example", Decision::Blocked);
    entry.decision_source = DecisionSource::Geoip;
    entry.voters = Vec::new();
    entry.geoip_country = Some("SE".to_string());
    log.push(entry);
    let body = page(None, &log);
    assert_eq!(body.entries.len(), 1);
    assert_eq!(body.entries[0].geoip_country, Some("SE".to_string()));
}

#[test]
fn serve_admin_log_filters_by_domain_contains() {
    let mut log = QueryLog::default();
    log.push(sample_log_entry("match.example", Decision::Allowed));
    log.push(sample_log_entry("other.example", Decision::Allowed));
    let body = page(Some("domain_contains=match"), &log);
    assert_eq!(body.entries.len(), 1);
    assert_eq!(body.entries[0].domain, "match.example");
}

#[test]
fn serve_admin_log_filters_by_decision() {
    let mut log = QueryLog::default();
    log.push(sample_log_entry("blocked.example", Decision::Blocked));
    log.push(sample_log_entry("allowed.example", Decision::Allowed));
    let body = page(Some("decision=BLOCKED"), &log);
    assert_eq!(body.entries.len(), 1);
    assert_eq!(body.entries[0].domain, "blocked.example");
}

#[test]
fn serve_admin_log_filters_by_voter() {
    let mut log = QueryLog::default();
    let mut adguard_entry = sample_log_entry("adguard-voted.example", Decision::Allowed);
    adguard_entry.voters = vec![VoterRecord {
        provider_id: "adguard".to_string(),
        verdict: VoterVerdict::Allow,
        allow_ip_count: Some(1),
        error_message: None,
    }];
    log.push(adguard_entry);
    log.push(sample_log_entry("quad9-voted.example", Decision::Allowed));
    let body = page(Some("voter=adguard"), &log);
    assert_eq!(body.entries.len(), 1);
    assert_eq!(body.entries[0].domain, "adguard-voted.example");
    assert!(page(Some("voter=my-own"), &log).entries.is_empty());
}

#[test]
fn serve_admin_log_rejects_an_unrecognized_decision_value() {
    assert!(matches!(
        admin_log(Some("decision=BLOCKD"), &QueryLog::default()),
        Err(Status::BadRequest)
    ));
}

#[test]
fn serve_admin_log_rejects_an_unrecognized_voter_value() {
    assert!(matches!(
        admin_log(Some("voter=bogus"), &QueryLog::default()),
        Err(Status::BadRequest)
    ));
}

#[test]
fn serve_admin_log_rejects_a_non_numeric_limit() {
    assert!(matches!(
        admin_log(Some("limit=abc"), &QueryLog::default()),
        Err(Status::BadRequest)
    ));
}

#[test]
fn serve_admin_log_caps_the_response_at_the_requested_limit_and_reports_truncated() {
    let mut log = QueryLog::default();
    for i in 0..5 {
        log.push(sample_log_entry(&format!("domain{i}.example"), Decision::Allowed));
    }
    let body = page(Some("limit=2"), &log);
    assert_eq!(body.entries.len(), 2);
    assert!(body.truncated);
    assert_eq!(body.entries[0].domain, "domain3.example");
    assert_eq!(body.entries[1].domain, "domain4.example");
}
