//! The bundled endpoint groups: their domains, ports and test URLs, and how candidate
//! lists and pinned addresses are read.
use vstd::prelude::*;

use crate::candidate::Ip;
use crate::selector::HostDef;
use crate::selector::HostDefView;
use crate::selector;
use crate::text;

verus! {

broadcast use vstd::string::group_string_axioms;

pub const ASSETS: &'static str = "xbox-assets";

pub const ASSETS_TEST_URL: &'static str =
    "http://assets1.xboxlive.cn/Z/routing/extraextralarge.txt";

pub const CONTENT: &'static str = "xbox-content";

pub const CONTENT_TEST_URL: &'static str =
    "http://dlassets.xboxlive.cn/public/content/1b5a4a08-06f0-49d6-b25f-d7322c11f3c8/372e2966-b158-4488-8bc8-15ef23db1379/1.5.0.1018.88cd7a5d-f56a-40c7-afd8-85cd4940b891/ACUEU771E1BF7_1.5.0.1018_x64__b6krnev7r9sf8";

/// The port of every bundled endpoint.
pub const UPSTREAM_PORT: u16 = 80;

/// Pins the addresses of `ASSETS`.
pub const PIN_ASSETS_ENV: &'static str = "XBOXPROXY_PIN_CN1";

/// Pins the addresses of `CONTENT`.
pub const PIN_CONTENT_ENV: &'static str = "XBOXPROXY_PIN_CN2";

/// Client domains of the download group, each with the host to send to the CDN.
pub open spec fn assets_domains() -> Seq<(Seq<char>, Seq<char>)> {
    seq![
        ("assets1.xboxlive.com"@, "assets1.xboxlive.cn"@),
        ("assets2.xboxlive.com"@, "assets2.xboxlive.cn"@),
        ("d1.xboxlive.com"@, "assets1.xboxlive.cn"@),
        ("d2.xboxlive.com"@, "assets2.xboxlive.cn"@),
        ("xvcf1.xboxlive.com"@, "assets1.xboxlive.cn"@),
        ("xvcf2.xboxlive.com"@, "assets2.xboxlive.cn"@),
        ("assets1.xboxlive.cn"@, "assets1.xboxlive.cn"@),
        ("assets2.xboxlive.cn"@, "assets2.xboxlive.cn"@),
        ("d1.xboxlive.cn"@, "assets1.xboxlive.cn"@),
        ("d2.xboxlive.cn"@, "assets2.xboxlive.cn"@),
    ]
}

/// Client domains of the content group, each with the host to send to the CDN.
pub open spec fn content_domains() -> Seq<(Seq<char>, Seq<char>)> {
    seq![
        ("dlassets.xboxlive.com"@, "dlassets.xboxlive.cn"@),
        ("dlassets2.xboxlive.com"@, "dlassets2.xboxlive.cn"@),
        ("dlassets.xboxlive.cn"@, "dlassets.xboxlive.cn"@),
        ("dlassets2.xboxlive.cn"@, "dlassets2.xboxlive.cn"@),
    ]
}

fn add_pair(map: &mut Vec<(String, String)>, client: &str, upstream: &str)
    ensures
        selector::pair_texts(final(map)@) == selector::pair_texts(old(map)@).push(
            (client@, upstream@),
        ),
{
    map.push((client.to_owned(), upstream.to_owned()));
    assert(selector::pair_texts(map@) =~= selector::pair_texts(old(map)@).push(
        (client@, upstream@),
    ));
}

fn assets_domain_map() -> (r: Vec<(String, String)>)
    ensures
        selector::pair_texts(r@) == assets_domains(),
{
    let mut map: Vec<(String, String)> = Vec::new();
    add_pair(&mut map, "assets1.xboxlive.com", "assets1.xboxlive.cn");
    add_pair(&mut map, "assets2.xboxlive.com", "assets2.xboxlive.cn");
    add_pair(&mut map, "d1.xboxlive.com", "assets1.xboxlive.cn");
    add_pair(&mut map, "d2.xboxlive.com", "assets2.xboxlive.cn");
    add_pair(&mut map, "xvcf1.xboxlive.com", "assets1.xboxlive.cn");
    add_pair(&mut map, "xvcf2.xboxlive.com", "assets2.xboxlive.cn");
    add_pair(&mut map, "assets1.xboxlive.cn", "assets1.xboxlive.cn");
    add_pair(&mut map, "assets2.xboxlive.cn", "assets2.xboxlive.cn");
    add_pair(&mut map, "d1.xboxlive.cn", "assets1.xboxlive.cn");
    add_pair(&mut map, "d2.xboxlive.cn", "assets2.xboxlive.cn");
    assert(selector::pair_texts(map@) =~= assets_domains());
    map
}

fn content_domain_map() -> (r: Vec<(String, String)>)
    ensures
        selector::pair_texts(r@) == content_domains(),
{
    let mut map: Vec<(String, String)> = Vec::new();
    add_pair(&mut map, "dlassets.xboxlive.com", "dlassets.xboxlive.cn");
    add_pair(&mut map, "dlassets2.xboxlive.com", "dlassets2.xboxlive.cn");
    add_pair(&mut map, "dlassets.xboxlive.cn", "dlassets.xboxlive.cn");
    add_pair(&mut map, "dlassets2.xboxlive.cn", "dlassets2.xboxlive.cn");
    assert(selector::pair_texts(map@) =~= content_domains());
    map
}

// ---------------------------------------------------------------------------
// Candidate lists
// ---------------------------------------------------------------------------

/// The first field of each line of a candidate list.
pub open spec fn list_tokens(list: Seq<char>) -> Seq<Seq<char>> {
    text::lines(list).map_values(|line: Seq<char>| text::until(line, text::field_ends()))
}

/// The first field of each line of a candidate list: where it is an address, the line
/// names a candidate.
pub fn candidate_tokens(list: &str) -> (r: Vec<String>)
    ensures
        text::texts(r@) == list_tokens(list@),
{
    let rows = text::lines_of(list);
    let mut out: Vec<String> = Vec::new();
    let mut i: usize = 0;
    while i < rows.len()
        invariant
            i <= rows.len(),
            text::texts(rows@) == text::lines(list@),
            text::texts(out@) == list_tokens(list@).take(i as int),
        decreases rows.len() - i,
    {
        let ghost before = out@;
        assert(text::texts(rows@)[i as int] == rows[i as int]@);
        let token = text::leading_field(&rows[i]);
        out.push(token);
        assert(text::texts(out@) =~= text::texts(before).push(token@));
        assert(list_tokens(list@).take(i + 1) =~= list_tokens(list@).take(i as int).push(token@));
        i += 1;
    }
    assert(list_tokens(list@).take(i as int) =~= list_tokens(list@));
    out
}

/// The addresses among the tokens of a list, without those that occurred before.
pub open spec fn distinct(parsed: Seq<Option<Ip>>) -> Seq<Ip>
    decreases parsed.len(),
{
    if parsed.len() == 0 {
        Seq::empty()
    } else {
        let before = distinct(parsed.drop_last());
        match parsed.last() {
            Some(ip) => if before.contains(ip) {
                before
            } else {
                before.push(ip)
            },
            None => before,
        }
    }
}

fn contains_ip(ips: &Vec<Ip>, ip: Ip) -> (r: bool)
    ensures
        r == ips@.contains(ip),
{
    let mut i: usize = 0;
    while i < ips.len()
        invariant
            i <= ips.len(),
            forall|j: int| 0 <= j < i ==> ips@[j] != ip,
        decreases ips.len() - i,
    {
        if ips[i] == ip {
            assert(ips@[i as int] == ip);
            return true;
        }
        i += 1;
    }
    false
}

/// The candidates of a list, each once and in the order of the list.
pub fn distinct_candidates(parsed: &Vec<Option<Ip>>) -> (r: Vec<Ip>)
    ensures
        r@ == distinct(parsed@),
{
    let mut out: Vec<Ip> = Vec::new();
    let mut i: usize = 0;
    while i < parsed.len()
        invariant
            i <= parsed.len(),
            out@ == distinct(parsed@.take(i as int)),
        decreases parsed.len() - i,
    {
        assert(parsed@.take(i + 1).drop_last() =~= parsed@.take(i as int));
        if let Some(ip) = parsed[i] {
            if !contains_ip(&out, ip) {
                out.push(ip);
            }
        }
        i += 1;
    }
    assert(parsed@.take(i as int) =~= parsed@);
    out
}

// ---------------------------------------------------------------------------
// Groups
// ---------------------------------------------------------------------------

/// The download group with the given candidates.
pub open spec fn assets_group(ips: Seq<Ip>) -> HostDefView {
    HostDefView {
        name: ASSETS@,
        domain_map: assets_domains(),
        ips,
        upstream_port: UPSTREAM_PORT,
        test_url: ASSETS_TEST_URL@,
    }
}

/// The content group with the given candidates.
pub open spec fn content_group(ips: Seq<Ip>) -> HostDefView {
    HostDefView {
        name: CONTENT@,
        domain_map: content_domains(),
        ips,
        upstream_port: UPSTREAM_PORT,
        test_url: CONTENT_TEST_URL@,
    }
}

/// The list of a group, named here, holds no address.
#[derive(Debug)]
pub struct NoCandidates {
    pub name: &'static str,
}

pub open spec fn no_candidates_message(name: Seq<char>) -> Seq<char> {
    "endpoint \""@ + name + "\" has no IP candidates"@
}

impl NoCandidates {
    pub fn message(&self) -> (r: String)
        ensures
            r@ == no_candidates_message(self.name@),
    {
        text::joined(&text::joined("endpoint \"", self.name), "\" has no IP candidates")
    }
}

/// The bundled groups, with the candidates of their lists. `assets` and `content` are
/// the tokens of the two lists, those that are addresses as such.
pub fn load(assets: &Vec<Option<Ip>>, content: &Vec<Option<Ip>>) -> (r: Result<
    Vec<HostDef>,
    NoCandidates,
>)
    ensures
        match r {
            Ok(hosts) => {
                &&& selector::def_views(hosts@) == seq![
                    assets_group(distinct(assets@)),
                    content_group(distinct(content@)),
                ]
                &&& distinct(assets@).len() > 0
                &&& distinct(content@).len() > 0
            },
            Err(e) => if distinct(assets@).len() == 0 {
                e.name@ == ASSETS@
            } else {
                distinct(content@).len() == 0 && e.name@ == CONTENT@
            },
        },
{
    let assets_ips = distinct_candidates(assets);
    if assets_ips.len() == 0 {
        return Err(NoCandidates { name: ASSETS });
    }
    let content_ips = distinct_candidates(content);
    if content_ips.len() == 0 {
        return Err(NoCandidates { name: CONTENT });
    }
    let mut hosts: Vec<HostDef> = Vec::new();
    hosts.push(
        HostDef {
            name: ASSETS.to_owned(),
            domain_map: assets_domain_map(),
            ips: assets_ips,
            upstream_port: UPSTREAM_PORT,
            test_url: ASSETS_TEST_URL.to_owned(),
        },
    );
    hosts.push(
        HostDef {
            name: CONTENT.to_owned(),
            domain_map: content_domain_map(),
            ips: content_ips,
            upstream_port: UPSTREAM_PORT,
            test_url: CONTENT_TEST_URL.to_owned(),
        },
    );
    assert(selector::def_views(hosts@) =~= seq![
        assets_group(distinct(assets@)),
        content_group(distinct(content@)),
    ]);
    Ok(hosts)
}

// ---------------------------------------------------------------------------
// Pinned addresses
// ---------------------------------------------------------------------------

/// A setting that is there and not blank, without white space around it.
pub open spec fn given(raw: Option<Seq<char>>) -> Option<Seq<char>> {
    match raw {
        Some(v) => if text::trimmed(v).len() == 0 {
            None
        } else {
            Some(text::trimmed(v))
        },
        None => None,
    }
}

/// The text of a pinned address, or `None` where nothing is pinned.
pub fn pin_text(raw: Option<&str>) -> (r: Option<String>)
    ensures
        text::opt_text(r) == given(text::opt_str(raw)),
{
    match raw {
        Some(v) => {
            let v = text::trim(v);
            if v.as_str().is_empty() {
                None
            } else {
                Some(v)
            }
        },
        None => None,
    }
}

/// What the proxy starts with.
#[derive(Debug)]
pub struct Loaded {
    pub hosts: Vec<HostDef>,
    /// Addresses were pinned, and speed tests are off.
    pub pinned: bool,
}

/// The address pinned for a group.
pub open spec fn pin_for(name: Seq<char>, assets: Option<Ip>, content: Option<Ip>) -> Option<Ip> {
    if name == ASSETS@ {
        assets
    } else if name == CONTENT@ {
        content
    } else {
        None
    }
}

/// The group with the pinned address, if there is one, as its only candidate.
pub open spec fn with_pin(def: HostDefView, pin: Option<Ip>) -> HostDefView {
    match pin {
        Some(ip) => HostDefView { ips: seq![ip], ..def },
        None => def,
    }
}

/// Puts pinned addresses in place of the candidates of their groups.
pub fn pin_endpoints(hosts: Vec<HostDef>, assets: Option<Ip>, content: Option<Ip>) -> (r: Loaded)
    ensures
        r.pinned == (assets is Some || content is Some),
        selector::def_views(r.hosts@) == selector::def_views(hosts@).map_values(
            |def: HostDefView| with_pin(def, pin_for(def.name, assets, content)),
        ),
{
    let ghost wanted = selector::def_views(hosts@).map_values(
        |def: HostDefView| with_pin(def, pin_for(def.name, assets, content)),
    );
    let mut out: Vec<HostDef> = Vec::new();
    let mut i: usize = 0;
    while i < hosts.len()
        invariant
            i <= hosts.len(),
            wanted == selector::def_views(hosts@).map_values(
                |def: HostDefView| with_pin(def, pin_for(def.name, assets, content)),
            ),
            selector::def_views(out@) == wanted.take(i as int),
        decreases hosts.len() - i,
    {
        let ghost before = out@;
        let mut def = hosts[i].clone();
        let pin = if text::same_text(&def.name, ASSETS) {
            assets
        } else if text::same_text(&def.name, CONTENT) {
            content
        } else {
            None
        };
        if let Some(ip) = pin {
            let mut ips: Vec<Ip> = Vec::new();
            ips.push(ip);
            def.ips = ips;
            assert(def.ips@ =~= seq![ip]);
        }
        assert(selector::def_views(hosts@)[i as int] == hosts[i as int]@);
        assert(def@ == wanted[i as int]);
        out.push(def);
        assert(selector::def_views(out@) =~= selector::def_views(before).push(def@));
        assert(wanted.take(i + 1) =~= wanted.take(i as int).push(wanted[i as int]));
        i += 1;
    }
    assert(wanted.take(i as int) =~= wanted);
    Loaded { hosts: out, pinned: assets.is_some() || content.is_some() }
}

/// A candidate list keeps every address that it names, each once.
pub proof fn candidates_are_kept_once(parsed: Seq<Option<Ip>>)
    ensures
        distinct(parsed).no_duplicates(),
        forall|ip: Ip| #[trigger] distinct(parsed).contains(ip) <==> parsed.contains(Some(ip)),
    decreases parsed.len(),
{
    if parsed.len() > 0 {
        let front = parsed.drop_last();
        candidates_are_kept_once(front);
        assert(front.push(parsed.last()) =~= parsed);
        assert forall|ip: Ip| #[trigger] distinct(parsed).contains(ip) <==> parsed.contains(
            Some(ip),
        ) by {
            if parsed.contains(Some(ip)) {
                let k = choose|k: int| 0 <= k < parsed.len() && parsed[k] == Some(ip);
                if k < front.len() {
                    assert(front[k] == Some(ip));
                    assert(front.contains(Some(ip)));
                    assert(distinct(front).contains(ip));
                    let m = choose|m: int| 0 <= m < distinct(front).len() && distinct(front)[m] == ip;
                    assert(distinct(parsed)[m] == ip);
                } else {
                    if !distinct(front).contains(ip) {
                        assert(distinct(parsed)[distinct(front).len() as int] == ip);
                    }
                }
            }
            if distinct(parsed).contains(ip) {
                let m = choose|m: int| 0 <= m < distinct(parsed).len() && distinct(parsed)[m] == ip;
                if m < distinct(front).len() {
                    assert(distinct(front)[m] == ip);
                    assert(distinct(front).contains(ip));
                    assert(front.contains(Some(ip)));
                    let k = choose|k: int| 0 <= k < front.len() && front[k] == Some(ip);
                    assert(parsed[k] == Some(ip));
                } else {
                    assert(parsed[parsed.len() - 1] == Some(ip));
                }
            }
        }
    } else {
        assert forall|ip: Ip| #[trigger] distinct(parsed).contains(ip) <==> parsed.contains(
            Some(ip),
        ) by {}
    }
}

/// Every host that is sent to the CDN is a client domain of the same group that stands
/// for itself.
pub proof fn upstream_hosts_stand_for_themselves()
    ensures
        forall|i: int|
            0 <= i < assets_domains().len() ==> assets_domains().contains(
                ((#[trigger] assets_domains()[i]).1, assets_domains()[i].1),
            ),
        forall|i: int|
            0 <= i < content_domains().len() ==> content_domains().contains(
                ((#[trigger] content_domains()[i]).1, content_domains()[i].1),
            ),
{
    let a = assets_domains();
    let c = content_domains();
    assert(a[6] == ("assets1.xboxlive.cn"@, "assets1.xboxlive.cn"@));
    assert(a[7] == ("assets2.xboxlive.cn"@, "assets2.xboxlive.cn"@));
    assert(c[2] == ("dlassets.xboxlive.cn"@, "dlassets.xboxlive.cn"@));
    assert(c[3] == ("dlassets2.xboxlive.cn"@, "dlassets2.xboxlive.cn"@));
}

} // verus!
