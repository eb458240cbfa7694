//! What the management dashboard may do: which pages it shows, when it may start a
//! speed test, and how it pins a group to an address.
use vstd::prelude::*;

use crate::candidate::Ip;
use crate::db::RowQuery;
use crate::db;
use crate::endpoints;
use crate::proxy::Reply;
use crate::proxy;
use crate::selector::PinError;
use crate::selector::Selector;
use crate::selector::SelectorView;
use crate::selector;
use crate::speedtest::ControlView;
use crate::speedtest::SpeedTestControl;
use crate::text;

verus! {

broadcast use vstd::string::group_string_axioms;

/// The rows that a listing shows: a hundred unless another number is asked for, and
/// from one to five hundred in any case.
pub open spec fn page_rows(limit: Option<i64>) -> i64 {
    match limit {
        None => 100,
        Some(n) => if n < 1 {
            1
        } else if n > 500 {
            500
        } else {
            n
        },
    }
}

pub fn page_limit(limit: Option<i64>) -> (r: i64)
    ensures
        r == page_rows(limit),
{
    match limit {
        None => 100,
        Some(n) => if n < 1 {
            1
        } else if n > 500 {
            500
        } else {
            n
        },
    }
}

/// The requests to list.
pub fn requests(limit: Option<i64>, since: Option<i64>) -> (q: RowQuery)
    ensures
        match since {
            Some(s) => q.sql@ == db::SELECT_REQUESTS_SINCE@ && q.args@ == seq![s, page_rows(limit)],
            None => q.sql@ == db::SELECT_REQUESTS@ && q.args@ == seq![page_rows(limit)],
        },
{
    db::recent_requests(page_limit(limit), since)
}

/// The measurements to list.
pub fn speedtests(limit: Option<i64>) -> (q: RowQuery)
    ensures
        q.sql@ == db::SELECT_SPEEDTESTS@,
        q.args@ == seq![page_rows(limit)],
{
    db::recent_speedtests(page_limit(limit))
}

/// What the overview asks the database for.
#[derive(Debug)]
pub struct Summary {
    pub now: i64,
    pub last_hour: RowQuery,
    pub last_24h: RowQuery,
    pub series: RowQuery,
    pub status_counts: RowQuery,
    pub recent: RowQuery,
    pub recent_speedtests: RowQuery,
}

/// The queries for the overview at `now`: the last hour and the last day, the fifty
/// latest requests of the last hour and the twenty latest measurements.
pub fn summary(now: u64) -> (r: Summary)
    requires
        now as i64 - 86_400 >= i64::MIN,
    ensures
        r.now == now as i64,
        r.last_hour.sql@ == db::SELECT_STATS@,
        r.last_hour.args@ == seq![(now as i64 - 3_600) as i64],
        r.last_24h.sql@ == db::SELECT_STATS@,
        r.last_24h.args@ == seq![(now as i64 - 86_400) as i64],
        r.series.sql@ == db::SELECT_SERIES@,
        r.series.args@ == seq![(now as i64 - 3_600) as i64],
        r.status_counts.sql@ == db::SELECT_STATUSES@,
        r.status_counts.args@ == seq![(now as i64 - 86_400) as i64],
        r.recent.sql@ == db::SELECT_REQUESTS_SINCE@,
        r.recent.args@ == seq![(now as i64 - 3_600) as i64, 50],
        r.recent_speedtests.sql@ == db::SELECT_SPEEDTESTS@,
        r.recent_speedtests.args@ == seq![20i64],
{
    let at: i64 = now as i64;
    let hour: i64 = at - 3_600;
    let day: i64 = at - 86_400;
    Summary {
        now: at,
        last_hour: db::stats_since(hour),
        last_24h: db::stats_since(day),
        series: db::series_since(hour),
        status_counts: db::status_counts(day),
        recent: db::recent_requests(50, Some(hour)),
        recent_speedtests: db::recent_speedtests(20),
    }
}

/// The answer where something went wrong on this side.
pub fn to_500(msg: String) -> (r: Reply)
    ensures
        r@ == proxy::plain(500, msg@),
{
    Reply { status: 500, content_type: proxy::TEXT_PLAIN, body: msg }
}

// ---------------------------------------------------------------------------
// Speed tests on demand
// ---------------------------------------------------------------------------

/// What comes of asking for a pass.
#[derive(Debug, Clone, Copy, PartialEq, Eq, Structural)]
pub enum RunOutcome {
    Started,
    /// A pass runs already.
    AlreadyRunning,
    /// Addresses are pinned, and speed tests are off.
    Pinned,
}

impl RunOutcome {
    pub fn started(&self) -> (r: bool)
        ensures
            r == (*self == RunOutcome::Started),
    {
        match self {
            RunOutcome::Started => true,
            RunOutcome::AlreadyRunning => false,
            RunOutcome::Pinned => false,
        }
    }

    pub open spec fn why(self) -> Option<Seq<char>> {
        match self {
            RunOutcome::Started => None,
            RunOutcome::AlreadyRunning => Some("already_running"@),
            RunOutcome::Pinned => Some("pinned"@),
        }
    }

    /// Why no pass was started.
    pub fn reason(&self) -> (r: Option<&'static str>)
        ensures
            text::opt_str(r) == self.why(),
    {
        match self {
            RunOutcome::Started => None,
            RunOutcome::AlreadyRunning => Some("already_running"),
            RunOutcome::Pinned => Some("pinned"),
        }
    }
}

/// Whether a pass that is asked for starts. It does even while a download is in
/// progress; it does not while a pass is running or addresses are pinned.
pub open spec fn run_outcome(control: ControlView, pinned: bool) -> RunOutcome {
    if control.running {
        RunOutcome::AlreadyRunning
    } else if pinned {
        RunOutcome::Pinned
    } else {
        RunOutcome::Started
    }
}

/// Asks for a pass, over the group that owns the host of `url` or, where that is blank
/// or missing, over all groups.
pub fn run_speedtest(control: &mut SpeedTestControl, pinned: bool, url: Option<&str>) -> (r:
    RunOutcome)
    ensures
        r == run_outcome(old(control)@, pinned),
        final(control)@ == if r == RunOutcome::Started {
            ControlView { pending_url: endpoints::given(text::opt_str(url)), ..old(control)@ }
        } else {
            old(control)@
        },
{
    if control.is_running() {
        return RunOutcome::AlreadyRunning;
    }
    if pinned {
        return RunOutcome::Pinned;
    }
    control.trigger(endpoints::pin_text(url));
    RunOutcome::Started
}

// ---------------------------------------------------------------------------
// Pinning a group
// ---------------------------------------------------------------------------

/// What a group is to be pinned to.
#[derive(Debug, Clone, Copy, PartialEq, Eq, Structural)]
pub enum PinAddress {
    /// Nothing: the bundled candidates come back.
    Bundled,
    /// An IPv4 address, its four octets as one number.
    V4(u32),
    /// Something that is no IPv4 address.
    Unreadable,
}

/// Why a group was not pinned.
#[derive(Debug, Clone, Copy, PartialEq, Eq, Structural)]
pub enum PinRefusal {
    NotIpv4,
    Group(PinError),
}

pub open spec fn of_group(r: Result<SelectorView, PinError>) -> Result<SelectorView, PinRefusal> {
    match r {
        Ok(after) => Ok(after),
        Err(e) => Err(PinRefusal::Group(e)),
    }
}

pub open spec fn refusal_message(e: PinRefusal, name: Seq<char>) -> Seq<char> {
    match e {
        PinRefusal::NotIpv4 => "ip must be an IPv4 address"@,
        PinRefusal::Group(e) => selector::pin_message(e, name),
    }
}

impl PinRefusal {
    /// What to tell who wanted to pin the group `name`.
    pub fn message(&self, name: &str) -> (r: String)
        ensures
            r@ == refusal_message(*self, name@),
    {
        match self {
            PinRefusal::NotIpv4 => "ip must be an IPv4 address".to_owned(),
            PinRefusal::Group(e) => e.message(name),
        }
    }
}

/// The selector after pinning a group.
pub open spec fn pinning(sel: SelectorView, name: Seq<char>, address: PinAddress) -> Result<
    SelectorView,
    PinRefusal,
> {
    match address {
        PinAddress::Bundled => of_group(sel.pinned(name, None)),
        PinAddress::V4(octets) => of_group(sel.pinned(name, Some(Ip::V4(octets)))),
        PinAddress::Unreadable => Err(PinRefusal::NotIpv4),
    }
}

/// Pins a group to one address, or gives it its bundled candidates back.
pub fn pin_group(selector: &mut Selector, name: &str, address: PinAddress) -> (r: Result<
    (),
    PinRefusal,
>)
    ensures
        match r {
            Ok(()) => pinning(old(selector)@, name@, address) == Ok::<SelectorView, PinRefusal>(
                final(selector)@,
            ),
            Err(e) => pinning(old(selector)@, name@, address) == Err::<SelectorView, PinRefusal>(e)
                && final(selector)@ == old(selector)@,
        },
{
    let ip = match address {
        PinAddress::Bundled => None,
        PinAddress::V4(octets) => Some(Ip::V4(octets)),
        PinAddress::Unreadable => return Err(PinRefusal::NotIpv4),
    };
    match selector.set_pinned_ip(name, ip) {
        Ok(()) => Ok(()),
        Err(e) => Err(PinRefusal::Group(e)),
    }
}

} // verus!
