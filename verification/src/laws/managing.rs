//! What holds of what is stored, listed, configured and asked for by hand.
use vstd::prelude::*;

use crate::candidate::Ip;
use crate::dashboard::PinAddress;
use crate::dashboard::PinRefusal;
use crate::dashboard::RunOutcome;
use crate::dashboard;
use crate::db::DbCommandView;
use crate::db::RequestRecordView;
use crate::db::SpeedTestRecordView;
use crate::db::WriteView;
use crate::db;
use crate::endpoints;
use crate::laws::texts;
use crate::pass::TargetErrorView;
use crate::pass;
use crate::selector::HostDefView;
use crate::selector::PinError;
use crate::selector::SelectorView;
use crate::selector;
use crate::speedtest::ControlView;
use crate::text;

verus! {

broadcast use vstd::string::group_string_axioms;

// ---------------------------------------------------------------------------
// The database
// ---------------------------------------------------------------------------

/// A row shows a request column by column; counts that fit are there as they are, and a
/// truth value is one or zero.
pub proof fn rows_show_requests(r: RequestRecordView)
    ensures
        ({
            let row = db::request_row(r);
            &&& row.ts == r.ts
            &&& row.client_ip == r.client_ip
            &&& row.host == r.host
            &&& row.path == r.path
            &&& row.method == r.method
            &&& row.status == r.status
            &&& r.bytes <= i64::MAX ==> row.bytes == r.bytes
            &&& r.duration_ms <= i64::MAX ==> row.duration_ms == r.duration_ms
            &&& r.ttfb_ms <= i64::MAX ==> row.ttfb_ms == r.ttfb_ms
            &&& row.throughput_mkbps == r.throughput_mkbps
            &&& row.upstream_ip == r.upstream_ip
            &&& row.passthrough == 1 <==> r.passthrough
            &&& row.passthrough == 0 <==> !r.passthrough
            &&& row.error == r.error
        }),
{
}

/// A row shows a measurement column by column.
pub proof fn rows_show_measurements(s: SpeedTestRecordView)
    ensures
        ({
            let row = db::speedtest_row(s);
            &&& row.ts == s.ts
            &&& row.host == s.host
            &&& row.ip == s.ip
            &&& row.latency_ms is Some <==> s.latency_ms is Some
            &&& s.latency_ms is Some && s.latency_ms->0 <= i64::MAX ==> row.latency_ms->0
                == s.latency_ms->0
            &&& row.speed_mkbps == s.speed_mkbps
            &&& row.success == 1 <==> s.success
            &&& row.success == 0 <==> !s.success
        }),
{
}

/// Any number but zero is read as true.
pub proof fn rows_are_read_column_by_column(row: db::RequestRowView, other: db::SpeedTestRowView)
    ensures
        ({
            let r = db::request_of_row(row);
            &&& r.ts == row.ts
            &&& r.client_ip == row.client_ip
            &&& r.host == row.host
            &&& r.path == row.path
            &&& r.method == row.method
            &&& 0 <= row.status <= u16::MAX ==> r.status == row.status
            &&& row.bytes >= 0 ==> r.bytes == row.bytes
            &&& row.duration_ms >= 0 ==> r.duration_ms == row.duration_ms
            &&& row.ttfb_ms >= 0 ==> r.ttfb_ms == row.ttfb_ms
            &&& r.throughput_mkbps == row.throughput_mkbps
            &&& r.upstream_ip == row.upstream_ip
            &&& !r.passthrough <==> row.passthrough == 0
            &&& r.error == row.error
        }),
        ({
            let s = db::speedtest_of_row(other);
            &&& s.ts == other.ts
            &&& s.host == other.host
            &&& s.ip == other.ip
            &&& s.latency_ms is Some <==> other.latency_ms is Some
            &&& other.latency_ms is Some && other.latency_ms->0 >= 0 ==> s.latency_ms->0
                == other.latency_ms->0
            &&& s.speed_mkbps == other.speed_mkbps
            &&& !s.success <==> other.success == 0
        }),
{
}

/// What is stored is one row, which is read back as what was to be stored.
pub proof fn records_are_stored_once(r: RequestRecordView, s: SpeedTestRecordView)
    ensures
        ({
            let writes = db::command_writes(DbCommandView::InsertRequest(r));
            &&& writes.len() == 1
            &&& writes[0] is Request
            &&& db::request_of_row(writes[0]->Request_0) == r
            &&& db::write_statement(writes[0]) == db::INSERT_REQUEST@
        }),
        ({
            let writes = db::command_writes(DbCommandView::InsertSpeedTest(s));
            &&& writes.len() == 1
            &&& writes[0] is SpeedTest
            &&& db::speedtest_of_row(writes[0]->SpeedTest_0) == s
            &&& db::write_statement(writes[0]) == db::INSERT_SPEEDTEST@
        }),
{
    db::request_rows_round_trip(r);
    db::speedtest_rows_round_trip(s);
}

/// Cleaning up forgets what is from before one time in both tables, and stores nothing.
pub proof fn both_tables_are_cleaned_up(cutoff: i64)
    ensures
        ({
            let writes = db::command_writes(DbCommandView::Cleanup(cutoff));
            &&& writes.len() == 2
            &&& writes.contains(WriteView::OldRequests(cutoff))
            &&& writes.contains(WriteView::OldSpeedTests(cutoff))
            &&& db::write_statement(WriteView::OldRequests(cutoff)) == db::DELETE_REQUESTS@
            &&& db::write_statement(WriteView::OldSpeedTests(cutoff)) == db::DELETE_SPEEDTESTS@
        }),
{
    let writes = db::command_writes(DbCommandView::Cleanup(cutoff));
    assert(writes[0] == WriteView::OldRequests(cutoff));
    assert(writes[1] == WriteView::OldSpeedTests(cutoff));
}

/// Records are kept for a week.
pub proof fn records_are_kept_for_a_week()
    ensures
        db::RETENTION_DAYS * 24 * 60 * 60 == 604_800,
{
}

/// A listing has as many rows as are wished for, between none and five hundred; a page has
/// at least one, and a hundred where nothing is wished for.
pub proof fn listings_are_bounded(limit: i64)
    ensures
        0 <= db::row_limit(limit) <= 500,
        0 <= limit <= 500 ==> db::row_limit(limit) == limit,
        limit < 0 ==> db::row_limit(limit) == 0,
        limit > 500 ==> db::row_limit(limit) == 500,
        1 <= dashboard::page_rows(Some(limit)) <= 500,
        1 <= limit <= 500 ==> dashboard::page_rows(Some(limit)) == limit,
        limit < 1 ==> dashboard::page_rows(Some(limit)) == 1,
        limit > 500 ==> dashboard::page_rows(Some(limit)) == 500,
        dashboard::page_rows(None) == 100,
        db::row_limit(dashboard::page_rows(Some(limit))) == dashboard::page_rows(Some(limit)),
{
}

// ---------------------------------------------------------------------------
// What is asked for by hand
// ---------------------------------------------------------------------------

/// A pass starts exactly where none runs and no address is pinned; that one runs is said
/// first.
pub proof fn passes_start_on_demand(control: ControlView, pinned: bool)
    ensures
        dashboard::run_outcome(control, pinned) == RunOutcome::Started <==> !control.running
            && !pinned,
        dashboard::run_outcome(control, pinned) == RunOutcome::AlreadyRunning <==> control.running,
        dashboard::run_outcome(control, pinned).why() is None <==> !control.running && !pinned,
        dashboard::run_outcome(control, pinned).why() == Some("already_running"@)
            <==> control.running,
        dashboard::run_outcome(control, pinned).why() == Some("pinned"@) <==> pinned
            && !control.running,
{
    reveal_strlit("already_running");
    reveal_strlit("pinned");
    assert("already_running"@.len() != "pinned"@.len());
}

/// By hand a group is pinned to an IPv4 address and nothing else, or given its own addresses
/// back, as the selector does it.
pub proof fn groups_are_pinned_to_ipv4_addresses(
    sel: SelectorView,
    name: Seq<char>,
    address: PinAddress,
)
    ensures
        dashboard::pinning(sel, name, address) == Err::<SelectorView, PinRefusal>(
            PinRefusal::NotIpv4,
        ) <==> address == PinAddress::Unreadable,
        address != PinAddress::Unreadable ==> {
            let ip = match address {
                PinAddress::V4(octets) => Some(Ip::V4(octets)),
                _ => None,
            };
            match sel.pinned(name, ip) {
                Ok(after) => dashboard::pinning(sel, name, address) == Ok::<
                    SelectorView,
                    PinRefusal,
                >(after),
                Err(e) => dashboard::pinning(sel, name, address) == Err::<SelectorView, PinRefusal>(
                    PinRefusal::Group(e),
                ),
            }
        },
{
}

/// What is refused is answered with the reason, which names what it is about.
pub proof fn refusals_name_what_they_are_about(name: Seq<char>, port: u16)
    ensures
        dashboard::refusal_message(PinRefusal::NotIpv4, name) == "ip must be an IPv4 address"@,
        dashboard::refusal_message(PinRefusal::Group(PinError::UnknownGroup), name)
            == "unknown group "@ + text::debug_text(name),
        dashboard::refusal_message(PinRefusal::Group(PinError::NothingToRestore), name)
            == "no IPs to restore for "@ + name,
        pass::target_message(TargetErrorView::InvalidUrl(name)) == "invalid test URL: "@ + name,
        pass::target_message(TargetErrorView::NoHost) == "test URL has no host"@,
        pass::target_message(TargetErrorView::Unmanaged(name)) == "test URL host "@
            + text::debug_text(name) + " is not a managed Xbox CDN domain"@,
        endpoints::no_candidates_message(name) == "endpoint \""@ + name
            + "\" has no IP candidates"@,
        selector::not_found_message(name, port) == "no managed endpoint candidate for "@ + name
            + ":"@ + text::decimal(port as nat),
{
}

// ---------------------------------------------------------------------------
// Endpoints
// ---------------------------------------------------------------------------

/// A setting counts as given where it holds anything but white space, and then without the
/// white space around it.
pub proof fn blank_settings_are_not_given(raw: Seq<char>)
    ensures
        endpoints::given(None) is None,
        endpoints::given(Some(raw)) is None <==> forall|i: int|
            0 <= i < raw.len() ==> texts::white_space().contains(#[trigger] raw[i] as int),
        endpoints::given(Some(raw)) matches Some(v) ==> exists|from: int, to: int| #[trigger]
            texts::stands_between_spaces(raw, from, to) && v == raw.subrange(from, to),
{
    texts::trimming_cuts_white_space_only(raw);
    let (from, to) = choose|from: int, to: int| #[trigger]
        texts::stands_between_spaces(raw, from, to) && text::trimmed(raw) == raw.subrange(from, to);
    if from < to {
        assert(!texts::white_space().contains(raw[from] as int));
    }
}

/// A list names one candidate to a line, in its first field.
pub proof fn lines_name_candidates(a: Seq<char>, b: Seq<char>)
    requires
        !a.contains('\n'),
        !a.contains('\r'),
    ensures
        endpoints::list_tokens(a.push('\n') + b) == seq![text::until(a, text::field_ends())]
            + endpoints::list_tokens(b),
        a.len() > 0 ==> endpoints::list_tokens(a) == seq![text::until(a, text::field_ends())],
        endpoints::list_tokens(Seq::empty()).len() == 0,
{
    texts::lines_end_at_line_feeds(a, b);
    texts::lines_end_at_line_feeds(Seq::empty(), b);
    if a.len() > 0 && a.last() == '\r' {
        assert(a[a.len() - 1] == '\r');
        assert(a.contains('\r'));
    }
    assert(endpoints::list_tokens(a.push('\n') + b) =~= seq![text::until(a, text::field_ends())]
        + endpoints::list_tokens(b));
    if a.len() > 0 {
        assert(endpoints::list_tokens(a) =~= seq![text::until(a, text::field_ends())]);
    }
}

/// The list names the address `a` before it ever names `b`.
pub open spec fn named_before(parsed: Seq<Option<Ip>>, a: Ip, b: Ip) -> bool {
    exists|k: int|
        0 <= k < parsed.len() && #[trigger] parsed[k] == Some(a) && forall|j: int|
            0 <= j <= k ==> #[trigger] parsed[j] != Some(b)
}

/// Candidates come in the order in which the list first names them.
pub proof fn candidates_keep_the_order_of_the_list(parsed: Seq<Option<Ip>>)
    ensures
        forall|m: int, n: int|
            0 <= m < n < endpoints::distinct(parsed).len() ==> named_before(
                parsed,
                #[trigger] endpoints::distinct(parsed)[m],
                #[trigger] endpoints::distinct(parsed)[n],
            ),
    decreases parsed.len(),
{
    if parsed.len() > 0 {
        let front = parsed.drop_last();
        let before = endpoints::distinct(front);
        let all = endpoints::distinct(parsed);
        candidates_keep_the_order_of_the_list(front);
        endpoints::candidates_are_kept_once(front);
        assert forall|m: int, n: int| 0 <= m < n < all.len() implies named_before(
            parsed,
            #[trigger] all[m],
            #[trigger] all[n],
        ) by {
            let a = all[m];
            let b = all[n];
            assert(before[m] == a);
            if n < before.len() {
                assert(before[n] == b);
                assert(named_before(front, a, b));
                let k = choose|k: int|
                    0 <= k < front.len() && #[trigger] front[k] == Some(a) && forall|j: int|
                        0 <= j <= k ==> #[trigger] front[j] != Some(b);
                assert(parsed[k] == Some(a));
                assert forall|j: int| 0 <= j <= k implies #[trigger] parsed[j] != Some(b) by {
                    assert(front[j] == parsed[j]);
                }
            } else {
                assert(before.contains(a));
                assert(front.contains(Some(a)));
                assert(!before.contains(b));
                let k = choose|k: int| 0 <= k < front.len() && front[k] == Some(a);
                assert(parsed[k] == Some(a));
                assert forall|j: int| 0 <= j <= k implies #[trigger] parsed[j] != Some(b) by {
                    assert(front[j] == parsed[j]);
                    if front[j] == Some(b) {
                        assert(front.contains(Some(b)));
                    }
                }
            }
        }
    }
}

/// A client domain of the download group and where it is served: by the numbered host of
/// the same number.
pub open spec fn is_download_pair(pair: (Seq<char>, Seq<char>), number: Seq<char>) -> bool {
    &&& number == "1"@ || number == "2"@
    &&& pair.1 == "assets"@ + number + ".xboxlive.cn"@
    &&& {
        ||| pair.0 == "assets"@ + number + ".xboxlive.com"@
        ||| pair.0 == "assets"@ + number + ".xboxlive.cn"@
        ||| pair.0 == "d"@ + number + ".xboxlive.com"@
        ||| pair.0 == "d"@ + number + ".xboxlive.cn"@
        ||| pair.0 == "xvcf"@ + number + ".xboxlive.com"@
    }
}

/// A client domain of the content group and where it is served: by the host of the same
/// name.
pub open spec fn is_content_pair(pair: (Seq<char>, Seq<char>), name: Seq<char>) -> bool {
    &&& name == "dlassets"@ || name == "dlassets2"@
    &&& pair.1 == name + ".xboxlive.cn"@
    &&& pair.0 == name + ".xboxlive.com"@ || pair.0 == name + ".xboxlive.cn"@
}

proof fn lemma_download_names()
    ensures
        "assets1.xboxlive.com"@ == "assets"@ + "1"@ + ".xboxlive.com"@,
        "assets1.xboxlive.cn"@ == "assets"@ + "1"@ + ".xboxlive.cn"@,
        "d1.xboxlive.com"@ == "d"@ + "1"@ + ".xboxlive.com"@,
        "d1.xboxlive.cn"@ == "d"@ + "1"@ + ".xboxlive.cn"@,
        "xvcf1.xboxlive.com"@ == "xvcf"@ + "1"@ + ".xboxlive.com"@,
        "assets2.xboxlive.com"@ == "assets"@ + "2"@ + ".xboxlive.com"@,
        "assets2.xboxlive.cn"@ == "assets"@ + "2"@ + ".xboxlive.cn"@,
        "d2.xboxlive.com"@ == "d"@ + "2"@ + ".xboxlive.com"@,
        "d2.xboxlive.cn"@ == "d"@ + "2"@ + ".xboxlive.cn"@,
        "xvcf2.xboxlive.com"@ == "xvcf"@ + "2"@ + ".xboxlive.com"@,
{
    reveal_strlit("assets");
    reveal_strlit("d");
    reveal_strlit("xvcf");
    reveal_strlit("1");
    reveal_strlit("2");
    reveal_strlit(".xboxlive.com");
    reveal_strlit(".xboxlive.cn");
    assert("assets1.xboxlive.com"@ =~= "assets"@ + "1"@ + ".xboxlive.com"@) by {
        reveal_strlit("assets1.xboxlive.com");
    }
    assert("assets1.xboxlive.cn"@ =~= "assets"@ + "1"@ + ".xboxlive.cn"@) by {
        reveal_strlit("assets1.xboxlive.cn");
    }
    assert("d1.xboxlive.com"@ =~= "d"@ + "1"@ + ".xboxlive.com"@) by {
        reveal_strlit("d1.xboxlive.com");
    }
    assert("d1.xboxlive.cn"@ =~= "d"@ + "1"@ + ".xboxlive.cn"@) by {
        reveal_strlit("d1.xboxlive.cn");
    }
    assert("xvcf1.xboxlive.com"@ =~= "xvcf"@ + "1"@ + ".xboxlive.com"@) by {
        reveal_strlit("xvcf1.xboxlive.com");
    }
    assert("assets2.xboxlive.com"@ =~= "assets"@ + "2"@ + ".xboxlive.com"@) by {
        reveal_strlit("assets2.xboxlive.com");
    }
    assert("assets2.xboxlive.cn"@ =~= "assets"@ + "2"@ + ".xboxlive.cn"@) by {
        reveal_strlit("assets2.xboxlive.cn");
    }
    assert("d2.xboxlive.com"@ =~= "d"@ + "2"@ + ".xboxlive.com"@) by {
        reveal_strlit("d2.xboxlive.com");
    }
    assert("d2.xboxlive.cn"@ =~= "d"@ + "2"@ + ".xboxlive.cn"@) by {
        reveal_strlit("d2.xboxlive.cn");
    }
    assert("xvcf2.xboxlive.com"@ =~= "xvcf"@ + "2"@ + ".xboxlive.com"@) by {
        reveal_strlit("xvcf2.xboxlive.com");
    }
}

proof fn lemma_content_names()
    ensures
        "dlassets.xboxlive.com"@ == "dlassets"@ + ".xboxlive.com"@,
        "dlassets.xboxlive.cn"@ == "dlassets"@ + ".xboxlive.cn"@,
        "dlassets2.xboxlive.com"@ == "dlassets2"@ + ".xboxlive.com"@,
        "dlassets2.xboxlive.cn"@ == "dlassets2"@ + ".xboxlive.cn"@,
{
    reveal_strlit("dlassets");
    reveal_strlit("dlassets2");
    reveal_strlit(".xboxlive.com");
    reveal_strlit(".xboxlive.cn");
    assert("dlassets.xboxlive.com"@ =~= "dlassets"@ + ".xboxlive.com"@) by {
        reveal_strlit("dlassets.xboxlive.com");
    }
    assert("dlassets.xboxlive.cn"@ =~= "dlassets"@ + ".xboxlive.cn"@) by {
        reveal_strlit("dlassets.xboxlive.cn");
    }
    assert("dlassets2.xboxlive.com"@ =~= "dlassets2"@ + ".xboxlive.com"@) by {
        reveal_strlit("dlassets2.xboxlive.com");
    }
    assert("dlassets2.xboxlive.cn"@ =~= "dlassets2"@ + ".xboxlive.cn"@) by {
        reveal_strlit("dlassets2.xboxlive.cn");
    }
}

/// The download group serves these domains, each by the host of its number, and no others.
pub proof fn downloads_are_served_by_number(pair: (Seq<char>, Seq<char>))
    ensures
        endpoints::assets_domains().contains(pair) <==> exists|number: Seq<char>| #[trigger]
            is_download_pair(pair, number),
{
    lemma_download_names();
    let all = endpoints::assets_domains();
    if all.contains(pair) {
        let i = choose|i: int| 0 <= i < all.len() && all[i] == pair;
        let number = if i % 2 == 0 {
            "1"@
        } else {
            "2"@
        };
        assert(is_download_pair(pair, number));
    }
    if exists|number: Seq<char>| #[trigger] is_download_pair(pair, number) {
        assert(all[0] == ("assets1.xboxlive.com"@, "assets1.xboxlive.cn"@));
        assert(all[1] == ("assets2.xboxlive.com"@, "assets2.xboxlive.cn"@));
        assert(all[2] == ("d1.xboxlive.com"@, "assets1.xboxlive.cn"@));
        assert(all[3] == ("d2.xboxlive.com"@, "assets2.xboxlive.cn"@));
        assert(all[4] == ("xvcf1.xboxlive.com"@, "assets1.xboxlive.cn"@));
        assert(all[5] == ("xvcf2.xboxlive.com"@, "assets2.xboxlive.cn"@));
        assert(all[6] == ("assets1.xboxlive.cn"@, "assets1.xboxlive.cn"@));
        assert(all[7] == ("assets2.xboxlive.cn"@, "assets2.xboxlive.cn"@));
        assert(all[8] == ("d1.xboxlive.cn"@, "assets1.xboxlive.cn"@));
        assert(all[9] == ("d2.xboxlive.cn"@, "assets2.xboxlive.cn"@));
    }
}

/// The content group serves these domains, each by the host of its name, and no others.
pub proof fn content_is_served_by_name(pair: (Seq<char>, Seq<char>))
    ensures
        endpoints::content_domains().contains(pair) <==> exists|name: Seq<char>| #[trigger]
            is_content_pair(pair, name),
{
    lemma_content_names();
    let all = endpoints::content_domains();
    if all.contains(pair) {
        let i = choose|i: int| 0 <= i < all.len() && all[i] == pair;
        let name = if i % 2 == 0 {
            "dlassets"@
        } else {
            "dlassets2"@
        };
        assert(is_content_pair(pair, name));
    }
    if exists|name: Seq<char>| #[trigger] is_content_pair(pair, name) {
        assert(all[0] == ("dlassets.xboxlive.com"@, "dlassets.xboxlive.cn"@));
        assert(all[1] == ("dlassets2.xboxlive.com"@, "dlassets2.xboxlive.cn"@));
        assert(all[2] == ("dlassets.xboxlive.cn"@, "dlassets.xboxlive.cn"@));
        assert(all[3] == ("dlassets2.xboxlive.cn"@, "dlassets2.xboxlive.cn"@));
    }
}

/// The group with the pinned address has it for its only candidate and is otherwise what it
/// was; without a pin nothing changes. Each of the two groups has its own pin, and no other
/// group has one.
pub proof fn pins_replace_the_candidates(def: HostDefView, assets: Option<Ip>, content: Option<Ip>)
    ensures
        ({
            let pin = endpoints::pin_for(def.name, assets, content);
            let after = endpoints::with_pin(def, pin);
            &&& def.name == "xbox-assets"@ ==> pin == assets
            &&& def.name == "xbox-content"@ ==> pin == content
            &&& def.name != "xbox-assets"@ && def.name != "xbox-content"@ ==> pin is None
            &&& pin is None ==> after == def
            &&& pin matches Some(ip) ==> after.ips.len() == 1 && after.ips[0] == ip
            &&& after.name == def.name
            &&& after.domain_map == def.domain_map
            &&& after.upstream_port == def.upstream_port
            &&& after.test_url == def.test_url
        }),
{
    reveal_strlit("xbox-assets");
    reveal_strlit("xbox-content");
    assert("xbox-assets"@.len() != "xbox-content"@.len());
}

/// The two groups have different names and the candidates they are given, and are reached by
/// plain HTTP.
pub proof fn groups_hold_their_candidates(ips: Seq<Ip>)
    ensures
        endpoints::assets_group(ips).ips == ips,
        endpoints::content_group(ips).ips == ips,
        endpoints::assets_group(ips).name == "xbox-assets"@,
        endpoints::content_group(ips).name == "xbox-content"@,
        endpoints::assets_group(ips).upstream_port == 80,
        endpoints::content_group(ips).upstream_port == 80,
        endpoints::assets_group(ips).domain_map == endpoints::assets_domains(),
        endpoints::content_group(ips).domain_map == endpoints::content_domains(),
        endpoints::assets_group(ips).test_url == endpoints::ASSETS_TEST_URL@,
        endpoints::content_group(ips).test_url == endpoints::CONTENT_TEST_URL@,
{
}

} // verus!
