use xboxproxy::candidate::{score_at, CandidateState, Ip, Score, DOWN_SPEED};
use xboxproxy::selector::{normalize_host, HostDef, PinError, Selector, Target};

fn v4(text: &str) -> Ip {
    let mut n: u32 = 0;
    for part in text.split('.') {
        n = n * 256 + part.parse::<u32>().unwrap();
    }
    Ip::V4(n)
}

fn def(ips: Vec<Ip>) -> HostDef {
    HostDef {
        name: "t".into(),
        domain_map: vec![("cdn.example.com".into(), "cdn.example.com".into())],
        ips,
        upstream_port: 80,
        test_url: "http://cdn.example.com/test".into(),
    }
}

#[test]
fn picks_fastest_by_speed() {
    let mut s = Selector::new(vec![def(vec![v4("1.1.1.1"), v4("2.2.2.2")])], 60);
    s.update_result("cdn.example.com", v4("1.1.1.1"), Some(50), Some(1000 * 1000), true);
    s.update_result("cdn.example.com", v4("2.2.2.2"), Some(10), Some(9000 * 1000), true);
    assert_eq!(s.best_ip("cdn.example.com"), Some(v4("2.2.2.2")));
}

#[test]
fn down_candidate_is_skipped() {
    let mut s = Selector::new(vec![def(vec![v4("1.1.1.1"), v4("2.2.2.2")])], 3600);
    s.update_result("cdn.example.com", v4("1.1.1.1"), None, Some(10000 * 1000), true);
    s.mark_failure("cdn.example.com", v4("1.1.1.1"));
    assert_eq!(s.best_ip("cdn.example.com"), Some(v4("2.2.2.2")));
}

#[test]
fn host_suffix_match() {
    let s = Selector::new(vec![def(vec![v4("1.1.1.1")])], 60);
    assert!(s.host_for("cdn.example.com").is_some());
    assert!(s.host_for("dl.cdn.example.com").is_some());
    assert!(s.host_for("cdn.example.com.evil.net").is_none());
    assert!(s.host_for("other.com").is_none());
}

#[test]
fn matching_is_case_insensitive_and_handles_trailing_dot() {
    let s = Selector::new(
        vec![HostDef {
            name: "t".into(),
            domain_map: vec![("CDN.Example.COM".into(), "cdn.example.com".into())],
            ips: vec![v4("1.1.1.1")],
            upstream_port: 80,
            test_url: "http://cdn.example.com/test".into(),
        }],
        60,
    );
    assert!(s.host_for("DL.CDN.EXAMPLE.COM.").is_some());
    assert_eq!(s.best_ip("CDN.EXAMPLE.COM."), Some(v4("1.1.1.1")));
}

#[test]
fn dashboard_pin_replaces_candidates_and_can_restore() {
    let mut s = Selector::new(vec![def(vec![v4("1.1.1.1"), v4("2.2.2.2")])], 60);
    let pin = v4("9.9.9.9");
    s.set_pinned_ip("t", Some(pin)).unwrap();
    assert_eq!(s.best_ip("cdn.example.com"), Some(pin));
    assert_eq!(s.defs()[0].ips, vec![pin]);
    assert_eq!(s.snapshot()[0].pinned_ip, Some(pin));

    s.set_pinned_ip("t", None).unwrap();
    let restored = s.defs();
    assert_eq!(restored[0].ips.len(), 2);
    assert!(s.snapshot()[0].pinned_ip.is_none());
}

#[test]
fn normalizing_lowers_and_drops_trailing_dots() {
    assert_eq!(normalize_host("CDN.Example.com.."), "cdn.example.com");
    assert_eq!(normalize_host("."), "");
    assert_eq!(normalize_host("a.b"), "a.b");
}

#[test]
fn upstream_host_is_that_of_the_first_matching_pair() {
    let mut d = def(vec![v4("1.1.1.1")]);
    d.domain_map = vec![
        ("a.example".into(), "up-a.example".into()),
        ("b.example".into(), "up-b.example".into()),
        ("x.b.example".into(), "up-x.example".into()),
    ];
    let s = Selector::new(vec![d], 60);
    assert_eq!(s.upstream_host_for("A.example."), Some("up-a.example"));
    assert_eq!(s.upstream_host_for("x.b.example"), Some("up-b.example"));
    assert_eq!(s.upstream_host_for("c.example"), None);
    assert_eq!(s.upstream_host_for("t"), None);
}

#[test]
fn groups_answer_to_their_name() {
    let s = Selector::new(vec![def(vec![v4("1.1.1.1")])], 60);
    assert_eq!(s.upstream_port("T"), Some(80));
    assert_eq!(s.best_ip_at("t.", 1_000), Some(v4("1.1.1.1")));
    assert!(s.host_for("t").is_none());
    assert_eq!(s.upstream_port("nobody"), None);
    assert_eq!(s.best_ip_at("nobody", 1_000), None);
}

#[test]
fn later_candidate_wins_a_tie() {
    let s = Selector::new(vec![def(vec![v4("1.1.1.1"), v4("2.2.2.2")])], 60);
    assert_eq!(s.best_ip_at("t", 1_000), Some(v4("2.2.2.2")));
}

#[test]
fn latency_breaks_ties_between_equal_speeds() {
    let mut s = Selector::new(vec![def(vec![v4("1.1.1.1"), v4("2.2.2.2")])], 60);
    s.update_result_at("t", v4("1.1.1.1"), Some(5), Some(7_000), true, 1_000);
    s.update_result_at("t", v4("2.2.2.2"), Some(6), Some(7_000), true, 1_000);
    assert_eq!(s.best_ip_at("t", 1_000), Some(v4("1.1.1.1")));
}

#[test]
fn failure_counts_until_the_penalty_is_over() {
    let mut s = Selector::new(vec![def(vec![v4("1.1.1.1"), v4("2.2.2.2")])], 60);
    s.update_result_at("t", v4("1.1.1.1"), Some(5), Some(7_000), true, 1_000);
    s.mark_failure_at("t", v4("1.1.1.1"), 1_000);
    assert_eq!(s.best_ip_at("t", 1_060), Some(v4("2.2.2.2")));
    assert_eq!(s.best_ip_at("t", 1_061), Some(v4("1.1.1.1")));
    assert!(s.snapshot_at(1_060)[0].candidates[1].down);
    assert!(!s.snapshot_at(1_061)[0].candidates[0].down);
    assert_eq!(s.snapshot_at(1_061)[0].candidates[0].fails, 1);
}

#[test]
fn all_failed_candidates_are_still_served_by_the_best() {
    let mut s = Selector::new(vec![def(vec![v4("1.1.1.1"), v4("2.2.2.2")])], 60);
    s.mark_failure_at("t", v4("1.1.1.1"), 1_000);
    s.mark_failure_at("t", v4("2.2.2.2"), 1_000);
    assert!(s.best_ip_at("t", 1_010).is_some());
}

#[test]
fn success_clears_failures_and_keeps_old_figures() {
    let mut s = Selector::new(vec![def(vec![v4("1.1.1.1")])], 60);
    s.update_result_at("t", v4("1.1.1.1"), Some(5), Some(7_000), true, 1_000);
    s.mark_failure_at("t", v4("1.1.1.1"), 1_001);
    s.update_result_at("t", v4("1.1.1.1"), None, None, true, 1_002);
    let c = s.snapshot_at(1_002)[0].candidates[0];
    assert_eq!(c.latency_ms, Some(5));
    assert_eq!(c.speed_mkbps, Some(7_000));
    assert_eq!(c.last_ok_ts, 1_002);
    assert_eq!(c.last_fail_ts, 1_001);
    assert_eq!(c.fails, 0);
    assert!(!c.down);
}

#[test]
fn results_for_unknown_hosts_and_addresses_change_nothing() {
    let mut s = Selector::new(vec![def(vec![v4("1.1.1.1")])], 60);
    s.update_result_at("nobody", v4("1.1.1.1"), Some(5), Some(7_000), true, 1_000);
    s.update_result_at("t", v4("3.3.3.3"), Some(5), Some(7_000), true, 1_000);
    let c = s.snapshot_at(1_000)[0].candidates[0];
    assert_eq!(c.speed_mkbps, None);
    assert_eq!(c.last_ok_ts, 0);
}

#[test]
fn snapshot_ranks_candidates() {
    let mut s = Selector::new(
        vec![def(vec![v4("1.1.1.1"), v4("2.2.2.2"), v4("3.3.3.3"), v4("4.4.4.4")])],
        60,
    );
    s.update_result_at("t", v4("2.2.2.2"), Some(5), Some(7_000), true, 1_000);
    s.update_result_at("t", v4("4.4.4.4"), Some(5), Some(9_000), true, 1_000);
    s.mark_failure_at("t", v4("3.3.3.3"), 1_000);
    let state = &s.snapshot_at(1_000)[0];
    let order: Vec<Ip> = state.candidates.iter().map(|c| c.ip).collect();
    assert_eq!(
        order,
        vec![v4("4.4.4.4"), v4("2.2.2.2"), v4("1.1.1.1"), v4("3.3.3.3")]
    );
    assert_eq!(state.name, "t");
    assert_eq!(state.domains, vec!["cdn.example.com".to_string()]);
    assert_eq!(state.upstream_port, 80);
}

#[test]
fn pinning_reports_unknown_and_empty_groups() {
    let mut s = Selector::new(vec![def(vec![])], 60);
    assert_eq!(s.set_pinned_ip("nobody", None), Err(PinError::UnknownGroup));
    assert_eq!(s.set_pinned_ip("t", None), Err(PinError::NothingToRestore));
    assert_eq!(s.best_ip_at("t", 1_000), None);
    assert_eq!(PinError::UnknownGroup.message("a\"b"), "unknown group \"a\\\"b\"");
    assert_eq!(PinError::NothingToRestore.message("t"), "no IPs to restore for t");
}

#[test]
fn live_definition_follows_the_pin() {
    let mut s = Selector::new(vec![def(vec![v4("1.1.1.1"), v4("2.2.2.2")])], 60);
    assert!(s.set_pinned_ip("cdn.example.com", Some(v4("9.9.9.9"))).is_ok());
    assert_eq!(s.def_for_host("t").unwrap().ips, vec![v4("9.9.9.9")]);
    assert_eq!(s.host_for("cdn.example.com").unwrap().ips.len(), 2);
    assert!(s.def_for_host("nobody").is_none());
}

#[test]
fn resolving_prefers_the_address_of_the_request() {
    let s = Selector::new(vec![def(vec![v4("1.1.1.1")])], 60);
    assert_eq!(
        s.resolve_at(Some(v4("5.5.5.5")), "other.com", 8080, 1_000),
        Ok(Target { ip: v4("5.5.5.5"), port: 8080 })
    );
    assert_eq!(
        s.resolve_at(None, "cdn.example.com", 8080, 1_000),
        Ok(Target { ip: v4("1.1.1.1"), port: 80 })
    );
    assert_eq!(
        s.resolve(None, "other.com", 8080),
        Err("no managed endpoint candidate for other.com:8080".to_string())
    );
}

fn measured(speed_mkbps: Option<u64>, latency_ms: Option<u64>) -> CandidateState {
    CandidateState {
        ip: v4("1.1.1.1"),
        latency_ms,
        speed_mkbps,
        last_ok_ts: 0,
        last_fail_ts: 100,
        fails: 1,
        down: true,
    }
}

#[test]
fn speed_dominates_the_score_and_latency_breaks_ties() {
    let far = score_at(&measured(Some(1_000_500), Some(2_000)), 161, 60);
    let near = score_at(&measured(Some(1_000_000), Some(0)), 161, 60);
    assert_eq!(far, Score { speed: 1_000_500, nearness: -2_000 });
    assert!(far.is_above(&near));
    assert!(!near.is_above(&far));
    assert!(far > near);
    let nearer = score_at(&measured(Some(1_000_500), Some(1_999)), 161, 60);
    assert!(nearer.is_above(&far));
    assert!(!far.is_above(&far));
    let slowest = score_at(&measured(None, Some(u64::MAX)), 161, 60);
    let down = score_at(&measured(Some(u64::MAX), None), 160, 60);
    assert_eq!(down.speed, DOWN_SPEED);
    assert!(slowest.is_above(&down));
}

#[test]
fn faster_candidate_is_chosen_though_it_is_far() {
    let mut s = Selector::new(vec![def(vec![v4("1.1.1.1"), v4("2.2.2.2")])], 60);
    s.update_result_at("t", v4("1.1.1.1"), Some(2_000), Some(1_000_500), true, 1_000);
    s.update_result_at("t", v4("2.2.2.2"), Some(0), Some(1_000_000), true, 1_000);
    assert_eq!(s.best_ip_at("t", 1_000), Some(v4("1.1.1.1")));
    assert_eq!(s.snapshot_at(1_000)[0].candidates[0].ip, v4("1.1.1.1"));
}
