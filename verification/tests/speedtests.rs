use xboxproxy::candidate::Ip;
use xboxproxy::metrics::MetricsStore;
use xboxproxy::selector::{HostDef, Selector};
use xboxproxy::pass::{
    add_group_tasks, apply_result_at, chunk_size, is_success, judge, plan_pass,
    random_range_header, range_header, request_timeout_ms, target_defs, target_for, Download,
    MeasureResult, Pass, Probe, TargetError, Task,
};
use xboxproxy::speedtest::{
    loop_mode, parse_auto_speedtest, Action, LoopMode, Scheduler, SpeedTestConfig,
    SpeedTestControl,
};

fn test_config() -> SpeedTestConfig {
    SpeedTestConfig {
        interval_sec: 1,
        connect_timeout_ms: 500,
        read_timeout_ms: 500,
        test_chunk_bytes: 4,
        warmup_passes: 1,
        failure_penalty_sec: 60,
        max_concurrency: 1,
        busy_retry_sec: 60,
    }
}

fn two_groups() -> Selector {
    Selector::new(
        vec![
            HostDef {
                name: "xbox-assets".into(),
                domain_map: vec![
                    ("assets1.xboxlive.cn".into(), "assets1.xboxlive.cn".into()),
                    ("assets2.xboxlive.cn".into(), "assets2.xboxlive.cn".into()),
                    ("d1.xboxlive.cn".into(), "assets1.xboxlive.cn".into()),
                    ("d2.xboxlive.cn".into(), "assets2.xboxlive.cn".into()),
                ],
                ips: vec![Ip::V4(0x0101_0101)],
                upstream_port: 80,
                test_url: "http://assets1.xboxlive.cn/default".into(),
            },
            HostDef {
                name: "xbox-content".into(),
                domain_map: vec![
                    ("dlassets.xboxlive.cn".into(), "dlassets.xboxlive.cn".into()),
                    ("dlassets2.xboxlive.cn".into(), "dlassets2.xboxlive.cn".into()),
                ],
                ips: vec![Ip::V4(0x0202_0202)],
                upstream_port: 80,
                test_url: "http://dlassets.xboxlive.cn/default".into(),
            },
        ],
        60,
    )
}

fn run(action: &Action) -> Option<(bool, Option<String>)> {
    match action {
        Action::Run { forced, url } => Some((*forced, url.clone())),
        Action::Wait(_) => None,
    }
}

fn wait(action: &Action) -> Option<Option<u64>> {
    match action {
        Action::Wait(limit) => Some(*limit),
        Action::Run { .. } => None,
    }
}

fn sec(n: u128) -> u128 {
    n * 1_000_000_000
}

fn task(name: &str) -> Task {
    Task {
        name: name.into(),
        ip: Ip::V4(1),
        url: "http://u/".into(),
        host: "u".into(),
    }
}

#[test]
fn parse_auto_speedtest_defaults_on() {
    assert!(parse_auto_speedtest(None));
    assert!(parse_auto_speedtest(Some("")));
    assert!(parse_auto_speedtest(Some("true")));
    assert!(!parse_auto_speedtest(Some("0")));
    assert!(!parse_auto_speedtest(Some("false")));
    assert!(!parse_auto_speedtest(Some("OFF")));
}

#[test]
fn settings_with_white_space_and_other_words() {
    assert!(!parse_auto_speedtest(Some("  No\n")));
    assert!(parse_auto_speedtest(Some(" ")));
    assert!(parse_auto_speedtest(Some("nope")));
    assert!(parse_auto_speedtest(Some("1")));
}

#[test]
fn test_url_selects_only_the_matching_group() {
    let s = two_groups();
    let t = target_defs(&s, Some("http://assets1.xboxlive.cn/Z/XXXX")).unwrap();
    assert_eq!(t.defs.len(), 1);
    assert_eq!(t.defs[0].name, "xbox-assets");
    assert_eq!(t.uri.unwrap().path, "/Z/XXXX");

    let t = target_defs(&s, Some("http://dlassets2.xboxlive.cn/public/foo")).unwrap();
    assert_eq!(t.defs.len(), 1);
    assert_eq!(t.defs[0].name, "xbox-content");

    let t = target_defs(&s, None).unwrap();
    assert_eq!(t.defs.len(), 2);
    assert!(t.uri.is_none());

    assert!(target_defs(&s, Some("http://example.com/x")).is_err());
    assert!(target_defs(&s, Some("not a url")).is_err());
}

#[test]
fn target_errors_say_why() {
    let s = two_groups();
    let e = target_defs(&s, Some("http://example.com/x")).err().unwrap();
    assert_eq!(
        e.message(),
        "test URL host \"example.com\" is not a managed Xbox CDN domain"
    );
    let e = target_defs(&s, Some("/only/a/path")).err().unwrap();
    assert!(matches!(e, TargetError::NoHost));
    assert_eq!(e.message(), "test URL has no host");
    let e = target_defs(&s, Some("not a url")).err().unwrap();
    assert!(matches!(e, TargetError::InvalidUrl(_)));
    assert!(e.message().starts_with("invalid test URL: "));
    assert!(e.message().len() > "invalid test URL: ".len());
    let e = target_for(&s, Err("why".into())).err().unwrap();
    assert_eq!(e.message(), "invalid test URL: why");
}

#[test]
fn non_success_response_is_a_failed_measurement() {
    assert!(!is_success(404));
    let result = judge(Probe::Rejected { latency_ms: 3 });
    assert!(!result.success);
    assert_eq!(result.speed_mkbps, None);
    assert_eq!(result.latency_ms, Some(3));
}

#[test]
fn partial_body_still_counts_as_usable() {
    assert!(is_success(206));
    let cfg = test_config();
    let mut d = Download::new(&cfg);
    d.receive(2);
    assert!(d.patience_nanos(&cfg, 1).is_some());
    let result = judge(Probe::Body { latency_ms: 3, bytes: d.bytes, nanos: 1_000_000 });
    assert!(result.success);
    assert!(result.speed_mkbps.is_some());
    assert_eq!(result.speed_mkbps, Some(15_625));
}

#[test]
fn silent_server_times_out_and_fails() {
    assert_eq!(request_timeout_ms(&test_config()), 1_000);
    let result = judge(Probe::NoAnswer);
    assert!(!result.success);
    assert!(result.latency_ms.is_none());
    assert!(result.speed_mkbps.is_none());
}

#[test]
fn bodies_without_data_fail() {
    let result = judge(Probe::Body { latency_ms: 3, bytes: 0, nanos: 10 });
    assert!(!result.success);
    assert_eq!(result.speed_mkbps, Some(0));
}

#[test]
fn success_statuses() {
    assert!(!is_success(199));
    assert!(is_success(200));
    assert!(is_success(299));
    assert!(!is_success(300));
}

#[test]
fn default_settings() {
    let cfg = SpeedTestConfig::default();
    assert_eq!(cfg.interval_sec, 3600);
    assert_eq!(cfg.connect_timeout_ms, 2_000);
    assert_eq!(cfg.read_timeout_ms, 10_000);
    assert_eq!(cfg.test_chunk_bytes, 10 * 1024 * 1024);
    assert_eq!(cfg.warmup_passes, 1);
    assert_eq!(cfg.failure_penalty_sec, 60);
    assert_eq!(cfg.max_concurrency, 64);
    assert_eq!(cfg.busy_retry_sec, 60);
    assert_eq!(request_timeout_ms(&cfg), 12_000);
}

#[test]
fn downloads_stop_at_the_chunk_or_the_deadline() {
    let cfg = test_config();
    let mut d = Download::new(&cfg);
    assert_eq!(d.patience_nanos(&cfg, 100_000_000), Some(400_000_000));
    assert_eq!(d.patience_nanos(&cfg, 500_000_000), None);
    d.receive(3);
    d.receive(u64::MAX);
    assert_eq!(d.bytes, 4);
    assert_eq!(d.patience_nanos(&cfg, 0), None);
}

#[test]
fn ranges_lie_within_the_file() {
    let mut cfg = test_config();
    assert_eq!(range_header(&cfg, 0), "bytes=0-3");
    assert_eq!(range_header(&cfg, 31_457_276), "bytes=31457276-31457279");
    assert_eq!(range_header(&cfg, 31_457_277), "bytes=0-3");
    cfg.test_chunk_bytes = 0;
    assert_eq!(chunk_size(&cfg), 1);
    assert_eq!(range_header(&cfg, 5), "bytes=5-5");
    cfg.test_chunk_bytes = u64::MAX;
    assert_eq!(chunk_size(&cfg), 31_457_280);
    assert_eq!(range_header(&cfg, 77), "bytes=0-31457279");
}

#[test]
fn random_ranges_vary() {
    let cfg = SpeedTestConfig::default();
    let mut seen: Vec<String> = Vec::new();
    for _ in 0..20 {
        let value = random_range_header(&cfg);
        let (from, to) = value.strip_prefix("bytes=").unwrap().split_once('-').unwrap();
        let from: u64 = from.parse().unwrap();
        let to: u64 = to.parse().unwrap();
        assert_eq!(to - from + 1, 10 * 1024 * 1024);
        assert!(to < 30 * 1024 * 1024);
        if !seen.contains(&value) {
            seen.push(value);
        }
    }
    assert!(seen.len() > 1);
}

#[test]
fn passes_cover_all_groups_or_one() {
    let s = two_groups();
    let tasks = plan_pass(&s, None).unwrap();
    assert_eq!(tasks.len(), 2);
    assert_eq!(tasks[0].name, "xbox-assets");
    assert_eq!(tasks[0].ip, Ip::V4(0x0101_0101));
    assert_eq!(tasks[0].url, "http://assets1.xboxlive.cn/default");
    assert_eq!(tasks[0].host, "assets1.xboxlive.cn");
    assert_eq!(tasks[1].name, "xbox-content");

    let tasks = plan_pass(&s, Some("http://d2.xboxlive.cn/x")).unwrap();
    assert_eq!(tasks.len(), 1);
    assert_eq!(tasks[0].name, "xbox-assets");
    assert_eq!(tasks[0].url, "http://d2.xboxlive.cn/x");
    assert_eq!(tasks[0].host, "d2.xboxlive.cn");

    assert!(plan_pass(&s, Some("http://example.com/")).is_err());
}

#[test]
fn groups_with_unusable_test_urls_are_passed_over() {
    let mut defs = two_groups().defs();
    defs[0].test_url = "not a url".into();
    let tasks = plan_pass(&Selector::new(defs, 60), None).unwrap();
    assert_eq!(tasks.len(), 1);
    assert_eq!(tasks[0].name, "xbox-content");
    let def = two_groups().defs().remove(0);
    let mut out = vec![task("a")];
    add_group_tasks(&mut out, &def, "u", &Err("no".into()));
    assert_eq!(out.len(), 1);
}

#[test]
fn results_reach_their_group_only() {
    let mut s = two_groups();
    let tasks = plan_pass(&s, Some("http://assets2.xboxlive.cn/x")).unwrap();
    let result = MeasureResult { latency_ms: Some(9), speed_mkbps: Some(5_000), success: true };
    let rec = apply_result_at(&mut s, &tasks[0], "1.1.1.1".into(), result, 77);
    assert_eq!(rec.ts, 77);
    assert_eq!(rec.host, "xbox-assets");
    assert_eq!(rec.ip, "1.1.1.1");
    assert_eq!(rec.latency_ms, Some(9));
    assert_eq!(rec.speed_mkbps, Some(5_000));
    assert!(rec.success);
    let shown = s.snapshot_at(77);
    assert_eq!(shown[0].candidates[0].speed_mkbps, Some(5_000));
    assert_eq!(shown[0].candidates[0].last_ok_ts, 77);
    assert_eq!(shown[1].candidates[0].speed_mkbps, None);
}

#[test]
fn waves_cover_the_pass() {
    let mut cfg = test_config();
    cfg.max_concurrency = 2;
    let idle = MetricsStore::new();
    let mut pass = Pass::new(&cfg, vec![task("a"), task("b"), task("c")], false);
    assert_eq!(pass.tasks().len(), 3);
    assert_eq!(pass.next_wave_at(&idle, sec(1_000)), Some((0, 2)));
    assert_eq!(pass.next_wave_at(&idle, sec(1_000)), Some((2, 3)));
    assert_eq!(pass.next_wave_at(&idle, sec(1_000)), None);
    cfg.max_concurrency = 0;
    let mut pass = Pass::new(&cfg, vec![task("a"), task("b")], false);
    assert_eq!(pass.next_wave_at(&idle, sec(1_000)), Some((0, 1)));
}

#[test]
fn traffic_breaks_off_a_pass_unless_it_is_forced() {
    let cfg = test_config();
    let idle = MetricsStore::new();
    let mut busy = MetricsStore::new();
    let _guard = busy.begin_request_at(sec(1_000));
    let mut pass = Pass::new(&cfg, vec![task("a"), task("b")], false);
    assert_eq!(pass.next_wave_at(&idle, sec(1_000)), Some((0, 1)));
    assert_eq!(pass.next_wave_at(&busy, sec(1_000)), None);
    assert_eq!(pass.next_wave_at(&idle, sec(1_000)), None);
    let mut pass = Pass::new(&cfg, vec![task("a"), task("b")], true);
    assert_eq!(pass.next_wave_at(&busy, sec(1_000)), Some((0, 1)));
    assert_eq!(pass.next_wave_at(&busy, sec(1_000)), Some((1, 2)));
    assert_eq!(pass.next_wave_at(&busy, sec(1_000)), None);
}

#[test]
fn warmup_is_followed_by_a_pass_per_interval() {
    let mut cfg = test_config();
    cfg.warmup_passes = 2;
    cfg.interval_sec = 3600;
    let idle = MetricsStore::new();
    let mut control = SpeedTestControl::new();
    let mut s = Scheduler::new(&cfg, true);
    let a = s.next_at(&cfg, &mut control, &idle, false, sec(1_000));
    assert_eq!(run(&a), Some((false, None)));
    assert!(control.is_running());
    let a = s.next_at(&cfg, &mut control, &idle, false, sec(1_000));
    assert_eq!(wait(&a), Some(Some(2)));
    assert!(!control.is_running());
    let a = s.next_at(&cfg, &mut control, &idle, false, sec(1_002));
    assert_eq!(run(&a), Some((false, None)));
    let a = s.next_at(&cfg, &mut control, &idle, false, sec(1_003));
    assert_eq!(wait(&a), Some(Some(3600)));
    let a = s.next_at(&cfg, &mut control, &idle, false, sec(4_603));
    assert_eq!(run(&a), Some((false, None)));
    let a = s.next_at(&cfg, &mut control, &idle, false, sec(4_604));
    assert_eq!(wait(&a), Some(Some(3600)));
}

#[test]
fn scheduled_passes_wait_for_idle_and_forced_ones_do_not() {
    let cfg = test_config();
    let mut busy = MetricsStore::new();
    let guard = busy.begin_request_at(sec(1_000));
    let mut control = SpeedTestControl::new();
    let mut s = Scheduler::new(&cfg, true);
    let a = s.next_at(&cfg, &mut control, &busy, false, sec(1_000));
    assert_eq!(wait(&a), Some(Some(60)));
    let a = s.next_at(&cfg, &mut control, &busy, false, sec(1_060));
    assert_eq!(wait(&a), Some(Some(60)));
    control.trigger(Some("http://d1.xboxlive.cn/x".into()));
    let a = s.next_at(&cfg, &mut control, &busy, true, sec(1_070));
    assert_eq!(run(&a), Some((true, Some("http://d1.xboxlive.cn/x".to_string()))));
    assert!(control.is_running());
    let a = s.next_at(&cfg, &mut control, &busy, false, sec(1_080));
    assert_eq!(wait(&a), Some(Some(60)));
    assert!(!control.is_running());
    busy.end_request_at(guard, sec(1_081));
    let a = s.next_at(&cfg, &mut control, &busy, false, sec(1_140));
    assert_eq!(wait(&a), Some(Some(60)));
    let a = s.next_at(&cfg, &mut control, &busy, false, sec(1_141));
    assert_eq!(run(&a), Some((false, None)));
}

#[test]
fn without_auto_only_asked_for_passes_run() {
    let cfg = test_config();
    let idle = MetricsStore::new();
    let mut control = SpeedTestControl::new();
    let mut s = Scheduler::new(&cfg, false);
    assert_eq!(wait(&s.next_at(&cfg, &mut control, &idle, false, sec(1_000))), Some(None));
    assert_eq!(wait(&s.next_at(&cfg, &mut control, &idle, false, sec(9_000))), Some(None));
    control.trigger(None);
    assert_eq!(run(&s.next_at(&cfg, &mut control, &idle, true, sec(9_001))), Some((true, None)));
    assert_eq!(wait(&s.next_at(&cfg, &mut control, &idle, false, sec(9_002))), Some(None));
}

#[test]
fn pending_urls_are_taken_once() {
    let mut control = SpeedTestControl::new();
    assert_eq!(control.take_url(), None);
    control.trigger(Some("a".into()));
    control.trigger(Some("b".into()));
    assert_eq!(control.take_url(), Some("b".to_string()));
    assert_eq!(control.take_url(), None);
}

#[test]
fn pins_turn_the_loop_off() {
    assert_eq!(loop_mode(true, true), LoopMode { enabled: false, auto: false });
    assert_eq!(loop_mode(false, true), LoopMode { enabled: true, auto: true });
    assert_eq!(loop_mode(false, false), LoopMode { enabled: true, auto: false });
}
