use http::header::{HeaderMap, HeaderName, HeaderValue};

use xboxproxy::candidate::Ip;
use xboxproxy::headers::{
    connection_tokens, forward_headers, host_header, is_hop_by_hop, repeatable, reply_headers,
    should_strip_header,
};
use xboxproxy::metrics::MetricsStore;
use xboxproxy::proxy::{
    bad_request, connect_target_at, delivered_headers, not_found, record_and_unavailable, route,
    route_at, route_for, service_unavailable, Answer, Attempt, Exchange, Next, Outcome, Refusal, Route,
};
use xboxproxy::record::{finalize, throughput_mkbps, BodyEvent, RecordState, RequestMeta};
use xboxproxy::selector::{HostDef, Selector, Target};
use xboxproxy::uri::{host_name_from_header, host_name_from_uri, UriParts};

fn selector() -> Selector {
    Selector::new(
        vec![HostDef {
            name: "t".into(),
            domain_map: vec![("cdn.example.com".into(), "up.example.net".into())],
            ips: vec![Ip::V4(1), Ip::V4(2)],
            upstream_port: 8081,
            test_url: "http://up.example.net/test".into(),
        }],
        60,
    )
}

fn with_host(host: &'static str) -> HeaderMap {
    let mut headers = HeaderMap::new();
    headers.insert("host", HeaderValue::from_static(host));
    headers
}

fn exchange(method: &str) -> Exchange {
    let route = Route {
        host: "cdn.example.com".into(),
        upstream_host: "up.example.net".into(),
    };
    Exchange::open(route, &with_host("cdn.example.com"), method, Some("/f?x=1"), "10.0.0.7").unwrap()
}

fn sec(n: u128) -> u128 {
    n * 1_000_000_000
}

/// A store with one request in flight, and its account.
fn in_flight(error: Option<String>) -> (MetricsStore, RecordState) {
    let mut metrics = MetricsStore::new();
    let guard = metrics.begin_request_at(sec(1));
    (metrics, RecordState::new(meta(), error, guard))
}

fn finished(x: Exchange) -> Outcome {
    let mut metrics = MetricsStore::new();
    let guard = metrics.begin_request_at(sec(1));
    x.finish(guard)
}

fn meta() -> RequestMeta {
    RequestMeta {
        client_ip: "10.0.0.7".into(),
        host: "cdn.example.com".into(),
        path: "/f".into(),
        method: "GET".into(),
        status: 206,
        upstream_ip: Some("0.0.0.1".into()),
        passthrough: false,
        ttfb_ms: 5,
    }
}

#[test]
fn parses_ipv6_and_port_in_host_header() {
    assert_eq!(
        host_name_from_header("[2001:db8::1]:8080"),
        Some("2001:db8::1".to_string())
    );
    assert_eq!(
        host_name_from_header("CDN.Example.com."),
        Some("cdn.example.com".to_string())
    );
    assert!(host_name_from_header("not a host").is_none());
    assert!(host_name_from_header("user@cdn.example.com").is_none());
    assert!(host_name_from_header("cdn.example.com/path").is_none());
}

#[test]
fn strips_connection_tokens() {
    let mut headers = HeaderMap::new();
    headers.insert("connection", HeaderValue::from_static("keep-alive, x-test"));
    headers.insert("x-test", HeaderValue::from_static("private"));
    let tokens = connection_tokens(&headers);
    assert!(should_strip_header(
        &HeaderName::from_static("x-test"),
        &tokens
    ));
    assert!(should_strip_header(
        &HeaderName::from_static("connection"),
        &tokens
    ));
    assert!(!should_strip_header(
        &HeaderName::from_static("x-safe"),
        &tokens
    ));
}

#[test]
fn rejects_unmanaged_hosts_without_dns_resolution() {
    let selector = Selector::new(Vec::new(), 60);
    let mut metrics = MetricsStore::new();
    let reply = match route(&selector, &mut metrics, &with_host("unmanaged.example")) {
        Ok(_) => panic!("routed"),
        Err(reply) => reply,
    };
    assert_eq!(reply.status, 404);
    assert_eq!(metrics.active_requests(), 0);
}

#[test]
fn hosts_with_a_query_or_nothing_left_are_no_hosts() {
    assert!(host_name_from_header("cdn.example.com?x").is_none());
    assert!(host_name_from_header("").is_none());
    assert!(host_name_from_header("...").is_none());
    assert_eq!(host_name_from_header("a:80"), Some("a".to_string()));
}

#[test]
fn named_hosts_are_named_again() {
    for header in ["CDN.Example-1.com.:8080", "a", "0.0.0.0:80", "-.b:99999", "x..y"] {
        let host = host_name_from_header(header).unwrap();
        assert!(!host.ends_with('.'));
        assert!(!host.contains('@'));
        assert_eq!(host_name_from_header(&host), Some(host.clone()));
        assert_eq!(host_name_from_header(&format!("{host}:8080")), Some(host.clone()));
    }
    let longest = "a".repeat(65_534 - 8);
    assert_eq!(host_name_from_header(&longest), Some(longest.clone()));
    assert_eq!(host_name_from_header(&format!("{longest}a")), None);
}

#[test]
fn hosts_of_parsed_uris() {
    let uri = UriParts {
        authority: Some("A.b.:1".into()),
        host: Some("A.b.".into()),
        port: Some(1),
        path: "/".into(),
        query: None,
    };
    assert_eq!(host_name_from_uri(&uri), Some("a.b".to_string()));
    let uri = UriParts { authority: None, ..uri };
    assert_eq!(host_name_from_uri(&uri), None);
}

#[test]
fn hop_by_hop_fields_in_any_case() {
    for name in [
        "Connection",
        "keep-alive",
        "PROXY-AUTHENTICATE",
        "proxy-authorization",
        "proxy-connection",
        "TE",
        "trailer",
        "transfer-encoding",
        "Upgrade",
    ] {
        assert!(is_hop_by_hop(name));
    }
    assert!(!is_hop_by_hop("host"));
    assert!(!is_hop_by_hop("content-length"));
    assert!(!is_hop_by_hop(""));
}

#[test]
fn connection_tokens_of_several_fields() {
    let mut headers = HeaderMap::new();
    headers.append("connection", HeaderValue::from_static(" X-A , ,x-b"));
    headers.append("connection", HeaderValue::from_bytes(b"x-\xffc").unwrap());
    headers.append("connection", HeaderValue::from_static("x-d"));
    let tokens = connection_tokens(&headers);
    for name in ["x-a", "x-b", "x-d"] {
        assert!(tokens.contains(name));
    }
    assert!(!tokens.contains("X-A"));
    assert!(!tokens.contains(""));
    assert!(!tokens.contains("x-c"));
}

#[test]
fn request_fields_are_filtered_and_tagged() {
    let mut headers = with_host("cdn.example.com");
    headers.insert("connection", HeaderValue::from_static("x-secret"));
    headers.insert("x-secret", HeaderValue::from_static("s"));
    headers.insert("content-length", HeaderValue::from_static("4"));
    headers.insert("range", HeaderValue::from_static("bytes=0-9"));
    headers.insert("x-forwarded-for", HeaderValue::from_static("6.6.6.6"));
    headers.append("accept", HeaderValue::from_static("a"));
    headers.append("accept", HeaderValue::from_static("b"));
    let fwd = forward_headers(&headers, "GET", "10.0.0.7").unwrap();
    let mut names: Vec<&str> = fwd.keys().map(|k| k.as_str()).collect();
    names.sort();
    assert_eq!(names, vec!["accept", "range", "x-forwarded-for", "x-real-ip"]);
    assert_eq!(fwd.get("range").unwrap(), "bytes=0-9");
    assert_eq!(fwd.get("x-forwarded-for").unwrap(), "10.0.0.7");
    assert_eq!(fwd.get("x-real-ip").unwrap(), "10.0.0.7");
    let accept: Vec<&HeaderValue> = fwd.get_all("accept").iter().collect();
    assert_eq!(accept, vec!["b"]);

    let fwd = forward_headers(&headers, "POST", "bad\naddress").unwrap();
    assert_eq!(fwd.get("content-length").unwrap(), "4");
    assert_eq!(fwd.get("x-real-ip").unwrap(), "");
}

#[test]
fn reply_fields_are_filtered_and_repeated() {
    let mut headers = HeaderMap::new();
    headers.insert("transfer-encoding", HeaderValue::from_static("chunked"));
    headers.insert("connection", HeaderValue::from_static("close, x-hop"));
    headers.insert("x-hop", HeaderValue::from_static("h"));
    headers.append("set-cookie", HeaderValue::from_static("a"));
    headers.append("set-cookie", HeaderValue::from_static("b"));
    let kept = reply_headers(&headers).unwrap();
    assert_eq!(kept.keys_len(), 1);
    let cookies: Vec<&HeaderValue> = kept.get_all("set-cookie").iter().collect();
    assert_eq!(cookies, vec!["a", "b"]);
    assert_eq!(delivered_headers(&headers).unwrap().len(), 2);
}

#[test]
fn host_field_is_trimmed_text() {
    assert_eq!(
        host_header(&with_host(" cdn.example.com ")),
        Some("cdn.example.com".to_string())
    );
    assert_eq!(host_header(&HeaderMap::new()), None);
    let mut headers = HeaderMap::new();
    headers.insert("host", HeaderValue::from_bytes(b"\xff").unwrap());
    assert_eq!(host_header(&headers), None);
}

#[test]
fn only_get_and_head_repeat() {
    assert!(repeatable("GET"));
    assert!(repeatable("HEAD"));
    assert!(!repeatable("get"));
    assert!(!repeatable("POST"));
}

#[test]
fn own_replies() {
    let r = bad_request("why");
    assert_eq!((r.status, r.content_type, r.body.as_str()), (400, "text/plain; charset=utf-8", "why"));
    let r = not_found();
    assert_eq!((r.status, r.body.as_str()), (404, "host is not managed by xboxproxy"));
    let r = service_unavailable("gone".into());
    assert_eq!((r.status, r.body.as_str()), (502, "gone"));
}

#[test]
fn routing_tells_missing_from_invalid_hosts() {
    let s = selector();
    let mut m = MetricsStore::new();
    let r = route_at(&s, &mut m, &HeaderMap::new(), sec(9)).err().unwrap();
    assert_eq!((r.status, r.body.as_str()), (400, "missing Host header"));
    let r = route_at(&s, &mut m, &with_host("a b"), sec(9)).err().unwrap();
    assert_eq!((r.status, r.body.as_str()), (400, "invalid Host header"));
    let r = route_at(&s, &mut m, &with_host("example.com"), sec(9)).err().unwrap();
    assert_eq!(r.status, 404);
    assert_eq!((m.active_requests(), m.last_activity()), (0, 0));
    let (found, guard) = route_at(&s, &mut m, &with_host("DL.cdn.example.com:80"), sec(9)).ok().unwrap();
    assert_eq!(found.host, "dl.cdn.example.com");
    assert_eq!(found.upstream_host, "up.example.net");
    assert_eq!((m.active_requests(), m.last_activity()), (1, 9));
    m.end_request_at(guard, sec(10));
    assert_eq!(m.active_requests(), 0);
}

#[test]
fn named_hosts_are_routed_or_refused() {
    let s = selector();
    assert_eq!(route_for(&s, None).err().unwrap().status, 400);
    assert_eq!(route_for(&s, Some("x".into())).err().unwrap().status, 404);
    assert_eq!(
        route_for(&s, Some("cdn.example.com".into())).unwrap().upstream_host,
        "up.example.net"
    );
}

#[test]
fn exchanges_start_with_the_upstream_request() {
    let x = exchange("GET");
    assert_eq!(x.uri, "http://up.example.net/f?x=1");
    assert_eq!(x.path, "/f?x=1");
    assert_eq!(x.host, "cdn.example.com");
    assert_eq!(x.attempts, 0);
    assert!(x.headers.get("host").is_none());
    let route = Route { host: "h".into(), upstream_host: "up.example.net".into() };
    let x = Exchange::open(route, &HeaderMap::new(), "GET", None, "c").unwrap();
    assert_eq!(x.uri, "http://up.example.net/");
}

#[test]
fn unusable_uris_are_bad_requests() {
    let route = Route { host: "h".into(), upstream_host: "up example".into() };
    match Exchange::open(route, &HeaderMap::new(), "GET", Some("/"), "c") {
        Err(Refusal::Answer(r)) => {
            assert_eq!((r.status, r.body.as_str()), (400, "invalid request URI"))
        }
        _ => panic!("accepted"),
    }
    let route = Route { host: "h".into(), upstream_host: "u".into() };
    let parsed = Err("no".to_string());
    assert!(matches!(
        Exchange::with_uri(route, "/".into(), &parsed, &HeaderMap::new(), "GET", "c"),
        Err(Refusal::Answer(_))
    ));
}

#[test]
fn requests_that_may_be_repeated_are_tried_three_times_on_changing_addresses() {
    let mut s = selector();
    let mut x = exchange("GET");
    assert_eq!(x.attempt_at(&s, 1_000), Some(Ip::V4(2)));
    assert!(matches!(x.conclude_at(&mut s, Attempt::Failed("one".into()), 1_000), Next::Again));
    assert_eq!(x.attempt_at(&s, 1_001), Some(Ip::V4(1)));
    assert!(matches!(x.conclude_at(&mut s, Attempt::Failed("two".into()), 1_001), Next::Again));
    assert!(x.attempt_at(&s, 1_002).is_some());
    assert!(matches!(x.conclude_at(&mut s, Attempt::Failed("three".into()), 1_002), Next::Finish));
    assert_eq!(x.attempts, 3);
    let out = finished(x);
    let reply = out.reply.unwrap();
    assert_eq!((reply.status, reply.body.as_str()), (502, "upstream unreachable: three"));
    assert_eq!(out.record.meta.status, 502);
    assert_eq!(out.record.meta.upstream_ip, None);
    assert_eq!(out.record.error, Some("three".to_string()));
}

#[test]
fn other_requests_are_tried_once() {
    let mut s = selector();
    let mut x = exchange("POST");
    assert!(x.may_attempt());
    assert!(x.attempt_at(&s, 1_000).is_some());
    assert!(!x.may_attempt());
    assert!(matches!(x.conclude_at(&mut s, Attempt::Failed("e".into()), 1_000), Next::Finish));
    assert_eq!(s.best_ip_at("t", 1_000), Some(Ip::V4(1)));
}

#[test]
fn answers_end_the_attempts_and_keep_the_last_error() {
    let mut s = selector();
    let mut x = exchange("HEAD");
    x.attempt_at(&s, 1_000);
    x.conclude_at(&mut s, Attempt::Failed("first".into()), 1_000);
    x.attempt_at(&s, 1_000);
    let answer = Answer { status: 206, upstream_ip: Some("0.0.0.1".into()), ttfb_ms: 17 };
    assert!(matches!(x.conclude_at(&mut s, Attempt::Answered(answer), 1_000), Next::Finish));
    let out = finished(x);
    assert!(out.reply.is_none());
    let m = out.record.meta;
    assert_eq!(m.client_ip, "10.0.0.7");
    assert_eq!(m.host, "cdn.example.com");
    assert_eq!(m.path, "/f?x=1");
    assert_eq!(m.method, "HEAD");
    assert_eq!(m.status, 206);
    assert_eq!(m.upstream_ip, Some("0.0.0.1".to_string()));
    assert!(!m.passthrough);
    assert_eq!(m.ttfb_ms, 17);
    assert_eq!(out.record.error, Some("first".to_string()));
}

#[test]
fn requests_that_cannot_be_built() {
    let mut s = selector();
    let mut x = exchange("POST");
    x.attempt_at(&s, 1_000);
    match x.conclude_at(&mut s, Attempt::BuildFailed("e".into()), 1_000) {
        Next::Refuse(r) => {
            assert_eq!((r.status, r.body.as_str()), (502, "upstream request build failed: e"))
        }
        _ => panic!("not refused"),
    }
    let mut x = exchange("GET");
    x.attempt_at(&s, 1_000);
    assert!(matches!(x.conclude_at(&mut s, Attempt::BuildFailed("e".into()), 1_000), Next::Finish));
    assert_eq!(finished(x).reply.unwrap().body, "upstream unreachable: e");
    assert_eq!(finished(exchange("GET")).reply.unwrap().body, "upstream unreachable");
    assert_eq!(s.best_ip_at("t", 1_000), Some(Ip::V4(2)));
}

#[test]
fn transfers_are_recorded_once() {
    let (mut m, mut state) = in_flight(None);
    assert!(state.on_event(&mut m, BodyEvent::Chunk(1_000), 1, sec(50)).is_none());
    assert!(state.on_event(&mut m, BodyEvent::Chunk(24), 2, sec(50)).is_none());
    let rec = state
        .on_event(&mut m, BodyEvent::Ended, 2_000_000_000, sec(51) + 5)
        .unwrap();
    assert_eq!(rec.ts, 51);
    assert_eq!(rec.bytes, 1_024);
    assert_eq!(rec.duration_ms, 2_000);
    assert_eq!(rec.throughput_mkbps, 4_000);
    assert_eq!(rec.status, 206);
    assert_eq!(rec.ttfb_ms, 5);
    assert_eq!(rec.upstream_ip, Some("0.0.0.1".to_string()));
    assert_eq!(rec.error, None);
    assert!(state.on_event(&mut m, BodyEvent::Dropped, 3_000_000_000, sec(52)).is_none());
    assert!(finalize(&mut state, &mut m, 4, sec(53)).is_none());
}

#[test]
fn requests_are_in_flight_until_their_body_is_through() {
    let s = selector();
    let mut m = MetricsStore::new();
    let (_, guard) = route_at(&s, &mut m, &with_host("cdn.example.com"), sec(9)).ok().unwrap();
    let (_, other) = route_at(&s, &mut m, &with_host("cdn.example.com"), sec(9)).ok().unwrap();
    let mut state = exchange("GET").finish(guard).record;
    let mut second = exchange("GET").finish(other).record;
    assert!(m.is_busy_at(0, sec(500)));
    state.on_event(&mut m, BodyEvent::Chunk(1), 1, sec(500));
    assert_eq!((m.active_requests(), m.last_activity()), (2, 9));
    second.on_event(&mut m, BodyEvent::Failed("reset".into()), 1, sec(600));
    second.on_event(&mut m, BodyEvent::Dropped, 1, sec(601));
    assert_eq!((m.active_requests(), m.last_activity()), (1, 600));
    assert!(m.is_busy_at(0, sec(900)));
    state.on_event(&mut m, BodyEvent::Ended, 1, sec(1_000));
    assert_eq!((m.active_requests(), m.last_activity()), (0, 1_000));
    assert!(!m.is_busy_at(0, sec(1_000)));
    state.on_event(&mut m, BodyEvent::Dropped, 1, sec(1_001));
    assert_eq!((m.active_requests(), m.last_activity()), (0, 1_000));
}

#[test]
fn broken_and_abandoned_transfers_are_recorded() {
    let (mut m, mut state) = in_flight(Some("early".into()));
    let rec = state
        .on_event(&mut m, BodyEvent::Failed("reset".into()), 1_999_999, sec(5))
        .unwrap();
    assert_eq!(rec.error, Some("reset".to_string()));
    assert_eq!(rec.duration_ms, 1);
    let (mut m, mut state) = in_flight(Some("early".into()));
    let rec = state.on_event(&mut m, BodyEvent::Dropped, 0, sec(5)).unwrap();
    assert_eq!(rec.error, Some("early".to_string()));
    assert_eq!(rec.throughput_mkbps, 0);
    assert_eq!(m.active_requests(), 0);
}

#[test]
fn unanswered_requests_are_recorded_with_their_reply() {
    let (mut m, mut state) = in_flight(None);
    let (rec, reply) = record_and_unavailable(&mut state, &mut m, "gone".into(), 10, sec(5));
    assert_eq!(rec.unwrap().ts, 5);
    assert_eq!((reply.status, reply.body.as_str()), (502, "gone"));
    assert_eq!(m.active_requests(), 0);
    let (rec, _) = record_and_unavailable(&mut state, &mut m, "gone".into(), 10, sec(5));
    assert!(rec.is_none());
    assert_eq!(m.active_requests(), 0);
}

#[test]
fn throughput_in_thousandths_of_kilobits() {
    assert_eq!(throughput_mkbps(1_024, 1_000_000_000), 8_000);
    assert_eq!(throughput_mkbps(1, 1_000_000_000), 7);
    assert_eq!(throughput_mkbps(0, 5), 0);
    assert_eq!(throughput_mkbps(5, 0), 0);
    assert_eq!(throughput_mkbps(u64::MAX, 1), u64::MAX);
}

#[test]
fn connections_go_to_the_port_of_the_group() {
    let s = selector();
    let mut uri = UriParts {
        authority: Some("up.example.net:9".into()),
        host: Some("up.example.net".into()),
        port: Some(9),
        path: "/".into(),
        query: None,
    };
    let current = Some(Ip::V4(7));
    assert_eq!(connect_target_at(&s, &uri, current, 1_000), Ok(Target { ip: Ip::V4(7), port: 9 }));
    assert_eq!(
        connect_target_at(&s, &uri, None, 1_000),
        Err("no managed endpoint candidate for up.example.net:9".to_string())
    );
    uri.port = None;
    assert_eq!(connect_target_at(&s, &uri, current, 1_000), Ok(Target { ip: Ip::V4(7), port: 80 }));
    uri.host = Some("cdn.example.com".into());
    assert_eq!(
        connect_target_at(&s, &uri, current, 1_000),
        Ok(Target { ip: Ip::V4(7), port: 8081 })
    );
    assert_eq!(
        connect_target_at(&s, &uri, None, 1_000),
        Ok(Target { ip: Ip::V4(2), port: 8081 })
    );
    uri.host = None;
    assert_eq!(
        connect_target_at(&s, &uri, None, 1_000),
        Err("no managed endpoint candidate for :80".to_string())
    );
}
