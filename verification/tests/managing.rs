use xboxproxy::candidate::Ip;
use xboxproxy::dashboard::{
    page_limit, pin_group, requests, run_speedtest, speedtests, summary, to_500, PinAddress,
    PinRefusal, RunOutcome,
};
use xboxproxy::db::{SELECT_REQUESTS_SINCE, SELECT_STATS};
use xboxproxy::selector::{HostDef, PinError, Selector};
use xboxproxy::speedtest::SpeedTestControl;

fn selector() -> Selector {
    Selector::new(
        vec![HostDef {
            name: "t".into(),
            domain_map: vec![("cdn.example.com".into(), "up.example.net".into())],
            ips: vec![Ip::V4(1), Ip::V4(2)],
            upstream_port: 80,
            test_url: "http://up.example.net/test".into(),
        }],
        60,
    )
}

#[test]
fn pages_have_a_size() {
    assert_eq!(page_limit(None), 100);
    assert_eq!(page_limit(Some(0)), 1);
    assert_eq!(page_limit(Some(-9)), 1);
    assert_eq!(page_limit(Some(501)), 500);
    assert_eq!(page_limit(Some(42)), 42);
    assert_eq!(requests(None, None).args, vec![100]);
    assert_eq!(requests(Some(7), Some(3)).args, vec![3, 7]);
    assert_eq!(speedtests(Some(1_000)).args, vec![500]);
}

#[test]
fn overview_looks_back_an_hour_and_a_day() {
    let s = summary(100_000);
    assert_eq!(s.now, 100_000);
    assert_eq!(s.last_hour.sql, SELECT_STATS);
    assert_eq!(s.last_hour.args, vec![96_400]);
    assert_eq!(s.last_24h.args, vec![13_600]);
    assert_eq!(s.series.args, vec![96_400]);
    assert_eq!(s.status_counts.args, vec![13_600]);
    assert_eq!(s.recent.sql, SELECT_REQUESTS_SINCE);
    assert_eq!(s.recent.args, vec![96_400, 50]);
    assert_eq!(s.recent_speedtests.args, vec![20]);
}

#[test]
fn passes_are_started_unless_running_or_pinned() {
    let mut control = SpeedTestControl::new();
    let r = run_speedtest(&mut control, true, Some("http://a/"));
    assert_eq!(r, RunOutcome::Pinned);
    assert!(!r.started());
    assert_eq!(r.reason(), Some("pinned"));
    assert_eq!(control.take_url(), None);

    let r = run_speedtest(&mut control, false, Some(" http://a/ "));
    assert_eq!(r, RunOutcome::Started);
    assert!(r.started());
    assert_eq!(r.reason(), None);
    assert_eq!(control.take_url(), Some("http://a/".to_string()));

    control.set_running(true);
    let r = run_speedtest(&mut control, false, None);
    assert_eq!(r, RunOutcome::AlreadyRunning);
    assert_eq!(r.reason(), Some("already_running"));
    assert_eq!(run_speedtest(&mut control, true, None), RunOutcome::AlreadyRunning);
    assert_eq!(control.take_url(), None);
}

#[test]
fn groups_are_pinned_and_restored() {
    let mut s = selector();
    assert_eq!(pin_group(&mut s, "t", PinAddress::V4(9)), Ok(()));
    assert_eq!(s.best_ip_at("t", 1_000), Some(Ip::V4(9)));
    assert_eq!(pin_group(&mut s, "t", PinAddress::Unreadable), Err(PinRefusal::NotIpv4));
    assert_eq!(s.snapshot_at(1_000)[0].pinned_ip, Some(Ip::V4(9)));
    assert_eq!(pin_group(&mut s, "t", PinAddress::Bundled), Ok(()));
    assert_eq!(s.snapshot_at(1_000)[0].candidates.len(), 2);
    let e = pin_group(&mut s, "nobody", PinAddress::V4(9)).unwrap_err();
    assert_eq!(e, PinRefusal::Group(PinError::UnknownGroup));
    assert_eq!(e.message("nobody"), "unknown group \"nobody\"");
    assert_eq!(PinRefusal::NotIpv4.message("t"), "ip must be an IPv4 address");
}

#[test]
fn failures_of_this_side_are_server_errors() {
    let r = to_500("query failed".into());
    assert_eq!((r.status, r.body.as_str()), (500, "query failed"));
}
