use xboxproxy::candidate::Ip;
use xboxproxy::endpoints::{candidate_tokens, load, pin_endpoints, pin_text};
use xboxproxy::selector::Selector;

fn some(n: u32) -> Option<Ip> {
    Some(Ip::V4(n))
}

#[test]
fn loads_hardcoded_xbox_endpoint_groups() {
    let endpoints = load(&vec![some(1), some(2)], &vec![some(3)]).unwrap();
    assert_eq!(endpoints.len(), 2);
    assert_eq!(
        endpoints[0].test_url,
        "http://assets1.xboxlive.cn/Z/routing/extraextralarge.txt"
    );
    assert!(endpoints[1]
        .test_url
        .starts_with("http://dlassets.xboxlive.cn/"));
    assert!(endpoints.iter().all(|endpoint| !endpoint.ips.is_empty()));
    assert!(endpoints[0]
        .domain_map
        .iter()
        .any(|(c, u)| c == "assets1.xboxlive.com" && u == "assets1.xboxlive.cn"));
}

#[test]
fn lists_give_the_first_field_of_each_line() {
    let list = "1.2.3.4\tShanghai\n5.6.7.8 x\r\n\n9.9.9.9;y\n# note\n2001:db8::1";
    assert_eq!(
        candidate_tokens(list),
        vec!["1.2.3.4", "5.6.7.8", "", "9.9.9.9", "#", "2001:db8::1"]
    );
    assert!(candidate_tokens("").is_empty());
    assert_eq!(candidate_tokens(" a\n"), vec![""]);
}

#[test]
fn candidates_are_kept_once_in_order() {
    let hosts = load(
        &vec![None, some(7), some(5), some(7), None, Some(Ip::V6(5)), some(5)],
        &vec![some(1)],
    )
    .unwrap();
    assert_eq!(hosts[0].ips, vec![Ip::V4(7), Ip::V4(5), Ip::V6(5)]);
    assert_eq!(hosts[1].ips, vec![Ip::V4(1)]);
    assert_eq!(hosts[1].name, "xbox-content");
    assert_eq!(hosts[0].upstream_port, 80);
}

#[test]
fn groups_without_candidates_are_refused() {
    let e = load(&vec![None], &vec![]).unwrap_err();
    assert_eq!(e.message(), "endpoint \"xbox-assets\" has no IP candidates");
    let e = load(&vec![some(1)], &vec![]).unwrap_err();
    assert_eq!(e.message(), "endpoint \"xbox-content\" has no IP candidates");
}

#[test]
fn every_documented_host_has_its_upstream() {
    let s = Selector::new(load(&vec![some(1)], &vec![some(2)]).unwrap(), 60);
    let expected = [
        ("assets1.xboxlive.com", "assets1.xboxlive.cn", "xbox-assets"),
        ("assets2.xboxlive.com", "assets2.xboxlive.cn", "xbox-assets"),
        ("d1.xboxlive.com", "assets1.xboxlive.cn", "xbox-assets"),
        ("d2.xboxlive.com", "assets2.xboxlive.cn", "xbox-assets"),
        ("xvcf1.xboxlive.com", "assets1.xboxlive.cn", "xbox-assets"),
        ("xvcf2.xboxlive.com", "assets2.xboxlive.cn", "xbox-assets"),
        ("dlassets.xboxlive.com", "dlassets.xboxlive.cn", "xbox-content"),
        ("dlassets2.xboxlive.com", "dlassets2.xboxlive.cn", "xbox-content"),
        ("assets1.xboxlive.cn", "assets1.xboxlive.cn", "xbox-assets"),
        ("assets2.xboxlive.cn", "assets2.xboxlive.cn", "xbox-assets"),
        ("d1.xboxlive.cn", "assets1.xboxlive.cn", "xbox-assets"),
        ("d2.xboxlive.cn", "assets2.xboxlive.cn", "xbox-assets"),
        ("dlassets.xboxlive.cn", "dlassets.xboxlive.cn", "xbox-content"),
        ("dlassets2.xboxlive.cn", "dlassets2.xboxlive.cn", "xbox-content"),
    ];
    for (client, upstream, group) in expected {
        assert_eq!(s.upstream_host_for(client), Some(upstream));
        assert_eq!(s.host_for(client).unwrap().name, group);
    }
    assert!(s.host_for("xboxlive.com").is_none());
    assert!(s.host_for("www.xboxlive.com").is_none());
}

#[test]
fn pins_take_the_place_of_candidates() {
    let hosts = load(&vec![some(1), some(2)], &vec![some(3)]).unwrap();
    let loaded = pin_endpoints(hosts, None, some(9));
    assert!(loaded.pinned);
    assert_eq!(loaded.hosts[0].ips, vec![Ip::V4(1), Ip::V4(2)]);
    assert_eq!(loaded.hosts[1].ips, vec![Ip::V4(9)]);
    let loaded = pin_endpoints(loaded.hosts, some(8), None);
    assert!(loaded.pinned);
    assert_eq!(loaded.hosts[0].ips, vec![Ip::V4(8)]);
    let loaded = pin_endpoints(loaded.hosts, None, None);
    assert!(!loaded.pinned);
}

#[test]
fn blank_pins_are_no_pins() {
    assert_eq!(pin_text(None), None);
    assert_eq!(pin_text(Some("  ")), None);
    assert_eq!(pin_text(Some(" 1.2.3.4\n")), Some("1.2.3.4".to_string()));
}
