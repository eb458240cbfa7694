//! Live proxy activity, so that speed tests stay out of the way of downloads, and the
//! hand-over of records to the database writer.
use std::time::Duration;
use vstd::prelude::*;

use crate::clock;
use crate::db::DbCommand;
use crate::db::RequestRecord;
use crate::db::SpeedTestRecord;
use crate::db;

verus! {

/// Times are nanoseconds since the Unix epoch.
#[verifier::ext_equal]
pub struct MetricsView {
    pub active_requests: u64,
    pub last_activity: u128,
}

impl MetricsView {
    /// No request was ever served.
    pub open spec fn unused() -> MetricsView {
        MetricsView { active_requests: 0, last_activity: 0 }
    }

    /// One more request is in flight.
    pub open spec fn begun(self, now: u128) -> MetricsView {
        MetricsView {
            active_requests: self.active_requests.wrapping_add(1),
            last_activity: now,
        }
    }

    /// One request less is in flight.
    pub open spec fn ended(self, now: u128) -> MetricsView {
        MetricsView {
            active_requests: self.active_requests.wrapping_sub(1),
            last_activity: now,
        }
    }

    /// A request is in flight, or one began or ended less than `grace_nanos` ago.
    pub open spec fn busy(self, grace_nanos: int, now: u128) -> bool {
        self.active_requests > 0 || clock::elapsed(now as int, self.last_activity as int)
            < grace_nanos
    }
}

/// The counts of live proxy activity.
pub struct MetricsStore {
    active_requests: u64,
    last_activity: u128,
}

impl View for MetricsStore {
    type V = MetricsView;

    closed spec fn view(&self) -> MetricsView {
        MetricsView { active_requests: self.active_requests, last_activity: self.last_activity }
    }
}

/// A request in flight. It comes from `begin_request` and is given back, once, to
/// `end_request`.
#[derive(Debug)]
pub struct ActivityGuard {
    token: (),
}

impl MetricsStore {
    pub fn new() -> (r: MetricsStore)
        ensures
            r@ == MetricsView::unused(),
    {
        MetricsStore { active_requests: 0, last_activity: 0 }
    }

    /// Marks a managed proxy request as in flight since `now`.
    pub fn begin_request_at(&mut self, now: u128) -> (guard: ActivityGuard)
        ensures
            final(self)@ == old(self)@.begun(now),
    {
        self.active_requests = self.active_requests.wrapping_add(1);
        self.last_activity = now;
        ActivityGuard { token: () }
    }

    /// Marks a managed proxy request as in flight.
    pub fn begin_request(&mut self) -> (guard: ActivityGuard)
        ensures
            exists|now: u128| final(self)@ == #[trigger] old(self)@.begun(now),
    {
        let now = clock::now_nanos();
        self.begin_request_at(now)
    }

    /// Marks a request as completed at `now`.
    pub fn end_request_at(&mut self, guard: ActivityGuard, now: u128)
        ensures
            final(self)@ == old(self)@.ended(now),
    {
        self.active_requests = self.active_requests.wrapping_sub(1);
        self.last_activity = now;
    }

    /// Marks a request as completed.
    pub fn end_request(&mut self, guard: ActivityGuard)
        ensures
            exists|now: u128| final(self)@ == #[trigger] old(self)@.ended(now),
    {
        let now = clock::now_nanos();
        self.end_request_at(guard, now);
    }

    pub fn active_requests(&self) -> (r: u64)
        ensures
            r == self@.active_requests,
    {
        self.active_requests
    }

    /// The Unix time of the last activity.
    pub fn last_activity(&self) -> (r: u64)
        ensures
            r == clock::secs(self@.last_activity),
    {
        clock::whole_secs(self.last_activity)
    }

    /// Whether a request is in flight at `now` or one finished within the grace time,
    /// both in nanoseconds.
    pub fn is_busy_at(&self, grace_nanos: u128, now: u128) -> (r: bool)
        ensures
            r == self@.busy(grace_nanos as int, now),
    {
        self.active_requests > 0 || (if now >= self.last_activity {
            now - self.last_activity < grace_nanos
        } else {
            grace_nanos > 0
        })
    }

    /// True while a request is in flight or one finished within `grace`. Speed tests
    /// should not run then, so that active downloads are not starved and measurements are
    /// not skewed by concurrent transfers.
    pub fn is_busy(&self, grace: Duration) -> (r: bool)
        ensures
            exists|now: u128| r == #[trigger] self@.busy(clock::span_nanos(grace) as int, now),
    {
        let now = clock::now_nanos();
        self.is_busy_at(grace.as_nanos(), now)
    }

    /// The command that stores a request.
    pub fn record_request(&self, rec: RequestRecord) -> (cmd: DbCommand)
        ensures
            cmd@ == db::DbCommandView::InsertRequest(rec@),
    {
        DbCommand::InsertRequest(rec)
    }

    /// The command that stores a measurement.
    pub fn record_speedtest(&self, rec: SpeedTestRecord) -> (cmd: DbCommand)
        ensures
            cmd@ == db::DbCommandView::InsertSpeedTest(rec@),
    {
        DbCommand::InsertSpeedTest(rec)
    }
}

/// Something that happens to the count of requests in flight, and when.
pub enum Activity {
    Begin(u128),
    End(u128),
}

/// The store after a history of activity.
pub open spec fn after(history: Seq<Activity>) -> MetricsView
    decreases history.len(),
{
    if history.len() == 0 {
        MetricsView::unused()
    } else {
        match history.last() {
            Activity::Begin(now) => after(history.drop_last()).begun(now),
            Activity::End(now) => after(history.drop_last()).ended(now),
        }
    }
}

/// The number of requests that began in a history and did not end.
pub open spec fn open_requests(history: Seq<Activity>) -> int
    decreases history.len(),
{
    if history.len() == 0 {
        0
    } else {
        open_requests(history.drop_last()) + (match history.last() {
            Activity::Begin(_) => 1int,
            Activity::End(_) => -1int,
        })
    }
}

/// At every moment of the history the number of open requests is one that the
/// counter can hold: none ends that did not begin.
pub open spec fn plausible(history: Seq<Activity>) -> bool {
    forall|n: int| 0 <= n <= history.len() ==> 0 <= #[trigger] open_requests(history.take(n)) <= u64::MAX
}

/// The counter shows how many requests are open.
pub proof fn counter_shows_open_requests(history: Seq<Activity>)
    requires
        plausible(history),
    ensures
        after(history).active_requests == open_requests(history),
    decreases history.len(),
{
    if history.len() > 0 {
        let before = history.drop_last();
        assert forall|n: int| 0 <= n <= before.len() implies 0 <= #[trigger] open_requests(
            before.take(n),
        ) <= u64::MAX by {
            assert(before.take(n) =~= history.take(n));
        }
        counter_shows_open_requests(before);
        assert(history.take(history.len() as int) =~= history);
        assert(0 <= open_requests(history.take(history.len() as int)) <= u64::MAX);
    }
}

/// While a request is open the proxy is busy, whatever the grace time; when none is,
/// it is busy for less than the grace time after the last activity.
pub proof fn busy_while_open_and_in_grace_time(history: Seq<Activity>, grace_nanos: int, now: u128)
    requires
        plausible(history),
    ensures
        open_requests(history) > 0 ==> after(history).busy(grace_nanos, now),
        open_requests(history) == 0 ==> after(history).busy(grace_nanos, now) == (clock::elapsed(
            now as int,
            after(history).last_activity as int,
        ) < grace_nanos),
{
    counter_shows_open_requests(history);
}

/// A request that begins and ends leaves the number of requests in flight as it was.
pub proof fn begin_and_end_balance(m: MetricsView, began: u128, ended: u128)
    ensures
        m.begun(began).ended(ended).active_requests == m.active_requests,
        m.begun(began).ended(ended).last_activity == ended,
{
}

} // verus!
