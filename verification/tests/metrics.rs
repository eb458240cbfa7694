use std::time::{Duration, SystemTime, UNIX_EPOCH};

use xboxproxy::clock::{now_nanos, now_unix, unix_nanos_of, unix_time_of};
use xboxproxy::db::{DbCommand, RequestRecord, SpeedTestRecord};
use xboxproxy::metrics::MetricsStore;

fn sec(n: u128) -> u128 {
    n * 1_000_000_000
}

#[test]
fn busy_tracks_inflight_requests_and_grace_window() {
    let mut m = MetricsStore::new();
    assert!(!m.is_busy(Duration::from_secs(60)));

    let guard = m.begin_request();
    assert!(m.is_busy(Duration::from_secs(60)));
    assert_eq!(m.active_requests(), 1);

    m.end_request(guard);
    assert_eq!(m.active_requests(), 0);
    // Still busy for the grace window after the request ends...
    assert!(m.is_busy(Duration::from_secs(60)));
    // ...but not with zero grace.
    assert!(!m.is_busy(Duration::ZERO));
}

#[test]
fn grace_window_ends() {
    let mut m = MetricsStore::new();
    let guard = m.begin_request_at(sec(1_000));
    assert!(m.is_busy_at(0, sec(9_000)));
    m.end_request_at(guard, sec(1_005) + 7);
    assert_eq!(m.last_activity(), 1_005);
    assert!(m.is_busy_at(sec(60), sec(1_065) + 6));
    assert!(!m.is_busy_at(sec(60), sec(1_065) + 7));
    assert!(m.is_busy_at(sec(60), sec(900)));
}

#[test]
fn grace_may_be_under_a_second() {
    let mut m = MetricsStore::new();
    let guard = m.begin_request_at(sec(10));
    m.end_request_at(guard, sec(10) + 900_000_000);
    assert!(m.is_busy_at(500_000_000, sec(11) + 399_999_999));
    assert!(!m.is_busy_at(500_000_000, sec(11) + 400_000_000));
    let guard = m.begin_request();
    m.end_request(guard);
    assert!(m.is_busy(Duration::from_millis(500)));
}

#[test]
fn several_requests_are_counted() {
    let mut m = MetricsStore::new();
    let a = m.begin_request_at(1);
    let b = m.begin_request_at(2);
    assert_eq!(m.active_requests(), 2);
    m.end_request_at(a, 3);
    assert_eq!(m.active_requests(), 1);
    assert!(m.is_busy_at(0, sec(100)));
    m.end_request_at(b, 4);
    assert_eq!(m.active_requests(), 0);
}

#[test]
fn records_become_commands() {
    let m = MetricsStore::new();
    let cmd = m.record_request(RequestRecord {
        ts: 7,
        client_ip: "c".into(),
        host: "h".into(),
        path: "/".into(),
        method: "GET".into(),
        status: 200,
        bytes: 1,
        duration_ms: 2,
        ttfb_ms: 3,
        throughput_mkbps: 4,
        upstream_ip: None,
        passthrough: false,
        error: None,
    });
    assert!(matches!(cmd, DbCommand::InsertRequest(r) if r.ts == 7 && r.host == "h"));
    let cmd = m.record_speedtest(SpeedTestRecord {
        ts: 8,
        host: "h".into(),
        ip: "i".into(),
        latency_ms: None,
        speed_mkbps: None,
        success: false,
    });
    assert!(matches!(cmd, DbCommand::InsertSpeedTest(s) if s.ts == 8 && s.ip == "i"));
}

#[test]
fn clock_reads_time_since_the_epoch() {
    let reading = UNIX_EPOCH + Duration::new(12, 999_999_999);
    assert_eq!(unix_time_of(&reading), 12);
    assert_eq!(unix_nanos_of(&reading), 12_999_999_999);
    let before = UNIX_EPOCH - Duration::from_secs(5);
    assert_eq!(unix_time_of(&before), 0);
    assert_eq!(unix_nanos_of(&before), 0);
    let now = SystemTime::now().duration_since(UNIX_EPOCH).unwrap();
    assert!(now_unix() - now.as_secs() <= 2);
    assert!(now_nanos() - now.as_nanos() <= sec(2));
}
