//! Accounting of a reply body on its way to the client: what was sent is recorded
//! once, however the transfer ends, and until then the request counts as in flight.
use vstd::prelude::*;

use crate::clock;
use crate::db::RequestRecord;
use crate::db::RequestRecordView;
use crate::metrics::ActivityGuard;
use crate::metrics::MetricsStore;
use crate::metrics::MetricsView;
use crate::text;

verus! {

broadcast use vstd::string::group_string_axioms;

/// What is known of a request once the upstream has answered or failed.
#[derive(Debug, Clone)]
pub struct RequestMeta {
    pub client_ip: String,
    pub host: String,
    pub path: String,
    pub method: String,
    pub status: u16,
    pub upstream_ip: Option<String>,
    pub passthrough: bool,
    pub ttfb_ms: u64,
}

#[verifier::ext_equal]
pub struct RequestMetaView {
    pub client_ip: Seq<char>,
    pub host: Seq<char>,
    pub path: Seq<char>,
    pub method: Seq<char>,
    pub status: u16,
    pub upstream_ip: Option<Seq<char>>,
    pub passthrough: bool,
    pub ttfb_ms: u64,
}

impl View for RequestMeta {
    type V = RequestMetaView;

    open spec fn view(&self) -> RequestMetaView {
        RequestMetaView {
            client_ip: self.client_ip@,
            host: self.host@,
            path: self.path@,
            method: self.method@,
            status: self.status,
            upstream_ip: text::opt_text(self.upstream_ip),
            passthrough: self.passthrough,
            ttfb_ms: self.ttfb_ms,
        }
    }
}

/// The rate of `bytes` in `nanos` nanoseconds, in thousandths of a kilobit (of 1024
/// bits) per second, rounded down and no more than fits; zero where no time passed.
pub open spec fn rate_mkbps(bytes: u64, nanos: u128) -> u64 {
    if nanos == 0 {
        0
    } else {
        let rate = (bytes as int * 7_812_500_000) / (nanos as int);
        if rate > u64::MAX {
            u64::MAX
        } else {
            rate as u64
        }
    }
}

pub fn throughput_mkbps(bytes: u64, nanos: u128) -> (r: u64)
    ensures
        r == rate_mkbps(bytes, nanos),
{
    if nanos == 0 {
        return 0;
    }
    let rate: u128 = (bytes as u128) * 7_812_500_000 / nanos;
    if rate > u64::MAX as u128 {
        u64::MAX
    } else {
        rate as u64
    }
}

/// Whole milliseconds, in 64 bits.
pub open spec fn millis(nanos: u128) -> u64 {
    (nanos / 1_000_000) as u64
}

pub fn whole_millis(nanos: u128) -> (r: u64)
    ensures
        r == millis(nanos),
{
    (nanos / 1_000_000) as u64
}

#[verifier::ext_equal]
pub struct RecordView {
    pub meta: RequestMetaView,
    pub bytes: u64,
    pub recorded: bool,
    pub error: Option<Seq<char>>,
}

impl RecordView {
    /// The record of a transfer that ends now.
    pub open spec fn entry(self, elapsed_nanos: u128, now: u128) -> RequestRecordView {
        RequestRecordView {
            ts: clock::secs(now) as i64,
            client_ip: self.meta.client_ip,
            host: self.meta.host,
            path: self.meta.path,
            method: self.meta.method,
            status: self.meta.status,
            bytes: self.bytes,
            duration_ms: millis(elapsed_nanos),
            ttfb_ms: self.meta.ttfb_ms,
            throughput_mkbps: rate_mkbps(self.bytes, elapsed_nanos),
            upstream_ip: self.meta.upstream_ip,
            passthrough: self.meta.passthrough,
            error: self.error,
        }
    }

    /// `len` more bytes went to the client.
    pub open spec fn counted(self, len: u64) -> RecordView {
        RecordView { bytes: self.bytes.wrapping_add(len), ..self }
    }

    /// The body broke off.
    pub open spec fn failed(self, error: Seq<char>) -> RecordView {
        RecordView { error: Some(error), ..self }
    }

    /// The transfer was recorded.
    pub open spec fn closed(self) -> RecordView {
        RecordView { recorded: true, ..self }
    }
}

/// The account of one reply body. It keeps the request in flight until the transfer is
/// recorded.
#[derive(Debug)]
pub struct RecordState {
    pub meta: RequestMeta,
    pub bytes: u64,
    pub error: Option<String>,
    /// Given back when the transfer is recorded.
    guard: Option<ActivityGuard>,
}

impl View for RecordState {
    type V = RecordView;

    closed spec fn view(&self) -> RecordView {
        RecordView {
            meta: self.meta@,
            bytes: self.bytes,
            recorded: self.guard is None,
            error: text::opt_text(self.error),
        }
    }
}

fn copied(s: &Option<String>) -> (r: Option<String>)
    ensures
        text::opt_text(r) == text::opt_text(*s),
{
    match s {
        Some(t) => Some(t.clone()),
        None => None,
    }
}

/// A record, if any.
pub open spec fn entry_view(r: Option<RequestRecord>) -> Option<RequestRecordView> {
    match r {
        Some(rec) => Some(rec@),
        None => None,
    }
}

/// Ends the account, at `now`: the first time it gives the record, and the request is no
/// longer in flight; after that nothing happens.
pub fn finalize(
    state: &mut RecordState,
    metrics: &mut MetricsStore,
    elapsed_nanos: u128,
    now: u128,
) -> (r: Option<RequestRecord>)
    ensures
        final(state)@ == old(state)@.closed(),
        entry_view(r) == old(state)@.emitted(BodyEventView::Ended, elapsed_nanos, now),
        final(metrics)@ == old(state)@.settled(old(metrics)@, BodyEventView::Ended, now),
{
    let guard = match state.guard.take() {
        Some(guard) => guard,
        None => return None,
    };
    metrics.end_request_at(guard, now);
    Some(
        RequestRecord {
            ts: clock::whole_secs(now) as i64,
            client_ip: state.meta.client_ip.clone(),
            host: state.meta.host.clone(),
            path: state.meta.path.clone(),
            method: state.meta.method.clone(),
            status: state.meta.status,
            bytes: state.bytes,
            duration_ms: whole_millis(elapsed_nanos),
            ttfb_ms: state.meta.ttfb_ms,
            throughput_mkbps: throughput_mkbps(state.bytes, elapsed_nanos),
            upstream_ip: copied(&state.meta.upstream_ip),
            passthrough: state.meta.passthrough,
            error: copied(&state.error),
        },
    )
}

/// Something that happens to a reply body.
#[derive(Debug)]
pub enum BodyEvent {
    /// A piece of this many bytes goes to the client.
    Chunk(u64),
    /// The upstream broke off.
    Failed(String),
    /// The upstream is through.
    Ended,
    /// The client is gone, or all is sent.
    Dropped,
}

pub enum BodyEventView {
    Chunk(u64),
    Failed(Seq<char>),
    Ended,
    Dropped,
}

impl View for BodyEvent {
    type V = BodyEventView;

    open spec fn view(&self) -> BodyEventView {
        match *self {
            BodyEvent::Chunk(len) => BodyEventView::Chunk(len),
            BodyEvent::Failed(error) => BodyEventView::Failed(error@),
            BodyEvent::Ended => BodyEventView::Ended,
            BodyEvent::Dropped => BodyEventView::Dropped,
        }
    }
}

impl RecordView {
    /// The account after an event.
    pub open spec fn after(self, event: BodyEventView) -> RecordView {
        match event {
            BodyEventView::Chunk(len) => self.counted(len),
            BodyEventView::Failed(error) => self.failed(error).closed(),
            BodyEventView::Ended => self.closed(),
            BodyEventView::Dropped => self.closed(),
        }
    }

    /// The record that an event gives rise to.
    pub open spec fn emitted(self, event: BodyEventView, elapsed_nanos: u128, now: u128) -> Option<
        RequestRecordView,
    > {
        if self.recorded {
            None
        } else {
            match event {
                BodyEventView::Chunk(_) => None,
                BodyEventView::Failed(error) => Some(self.failed(error).entry(elapsed_nanos, now)),
                BodyEventView::Ended => Some(self.entry(elapsed_nanos, now)),
                BodyEventView::Dropped => Some(self.entry(elapsed_nanos, now)),
            }
        }
    }

    /// The counts of activity after an event: the first one that ends the transfer ends
    /// the request, all others leave them as they were.
    pub open spec fn settled(self, store: MetricsView, event: BodyEventView, now: u128) -> MetricsView {
        if !self.recorded && is_final(event) {
            store.ended(now)
        } else {
            store
        }
    }

    /// The account after a number of events.
    pub open spec fn after_all(self, events: Seq<BodyEventView>) -> RecordView
        decreases events.len(),
    {
        if events.len() == 0 {
            self
        } else {
            self.after_all(events.drop_last()).after(events.last())
        }
    }
}

impl RecordState {
    /// The account of a request in flight whose reply is about to be sent.
    pub fn new(meta: RequestMeta, error: Option<String>, guard: ActivityGuard) -> (r: RecordState)
        ensures
            r@ == (RecordView {
                meta: meta@,
                bytes: 0,
                recorded: false,
                error: text::opt_text(error),
            }),
    {
        RecordState { meta, bytes: 0, error, guard: Some(guard) }
    }

    /// Takes in an event that came `elapsed_nanos` after the request, at `now`.
    pub fn on_event(
        &mut self,
        metrics: &mut MetricsStore,
        event: BodyEvent,
        elapsed_nanos: u128,
        now: u128,
    ) -> (r: Option<RequestRecord>)
        ensures
            final(self)@ == old(self)@.after(event@),
            entry_view(r) == old(self)@.emitted(event@, elapsed_nanos, now),
            final(metrics)@ == old(self)@.settled(old(metrics)@, event@, now),
    {
        match event {
            BodyEvent::Chunk(len) => {
                self.bytes = self.bytes.wrapping_add(len);
                None
            },
            BodyEvent::Failed(error) => {
                self.error = Some(error);
                finalize(self, metrics, elapsed_nanos, now)
            },
            BodyEvent::Ended => finalize(self, metrics, elapsed_nanos, now),
            BodyEvent::Dropped => finalize(self, metrics, elapsed_nanos, now),
        }
    }
}

/// The event ends the transfer.
pub open spec fn is_final(event: BodyEventView) -> bool {
    !(event is Chunk)
}

/// How many records a number of events gives rise to.
pub open spec fn records_of(state: RecordView, events: Seq<BodyEventView>) -> nat
    decreases events.len(),
{
    if events.len() == 0 {
        0
    } else {
        records_of(state, events.drop_last()) + if state.after_all(events.drop_last()).emitted(
            events.last(),
            0,
            0,
        ) is Some {
            1nat
        } else {
            0
        }
    }
}

/// The bytes of the pieces among the events.
pub open spec fn chunk_bytes(events: Seq<BodyEventView>) -> int
    decreases events.len(),
{
    if events.len() == 0 {
        0
    } else {
        chunk_bytes(events.drop_last()) + match events.last() {
            BodyEventView::Chunk(len) => len as int,
            _ => 0,
        }
    }
}

/// Whatever happens to a body, and in whatever order, its transfer is recorded once it
/// ended, broke off or was dropped, and never twice.
pub proof fn recorded_exactly_once(state: RecordView, events: Seq<BodyEventView>)
    requires
        !state.recorded,
    ensures
        records_of(state, events) == if exists|i: int|
            0 <= i < events.len() && is_final(#[trigger] events[i]) {
            1nat
        } else {
            0
        },
        state.after_all(events).recorded == (records_of(state, events) == 1),
    decreases events.len(),
{
    if events.len() > 0 {
        let before = events.drop_last();
        recorded_exactly_once(state, before);
        assert forall|i: int| 0 <= i < before.len() implies before[i] == #[trigger] events[i] by {}
        if exists|i: int| 0 <= i < before.len() && is_final(#[trigger] before[i]) {
            let i = choose|i: int| 0 <= i < before.len() && is_final(#[trigger] before[i]);
            assert(is_final(events[i]));
        }
        if is_final(events.last()) {
            assert(is_final(events[events.len() - 1]));
        }
        if exists|i: int| 0 <= i < events.len() && is_final(#[trigger] events[i]) {
            let i = choose|i: int| 0 <= i < events.len() && is_final(#[trigger] events[i]);
            if i < before.len() {
                assert(is_final(before[i]));
            }
        }
    }
}

/// The count of bytes is that of all pieces that went to the client.
pub proof fn all_pieces_are_counted(state: RecordView, events: Seq<BodyEventView>)
    requires
        state.bytes == 0,
        chunk_bytes(events) <= u64::MAX,
    ensures
        state.after_all(events).bytes == chunk_bytes(events),
        chunk_bytes(events) >= 0,
    decreases events.len(),
{
    if events.len() > 0 {
        lemma_chunk_bytes_nonnegative(events.drop_last());
        all_pieces_are_counted(state, events.drop_last());
    }
}

proof fn lemma_chunk_bytes_nonnegative(events: Seq<BodyEventView>)
    ensures
        chunk_bytes(events) >= 0,
    decreases events.len(),
{
    if events.len() > 0 {
        lemma_chunk_bytes_nonnegative(events.drop_last());
    }
}

/// What is recorded is about the request that was made, whatever happens to the body.
pub proof fn meta_is_kept(state: RecordView, events: Seq<BodyEventView>)
    ensures
        state.after_all(events).meta == state.meta,
    decreases events.len(),
{
    if events.len() > 0 {
        meta_is_kept(state, events.drop_last());
    }
}

// ---------------------------------------------------------------------------
// Requests in flight
// ---------------------------------------------------------------------------

/// The counts of activity, and the accounts of the requests that were counted.
#[verifier::ext_equal]
pub struct Traffic {
    pub store: MetricsView,
    pub accounts: Seq<RecordView>,
}

/// Something that happens in the traffic, and when.
pub enum TrafficEvent {
    /// A request is counted, to be recorded once by this account.
    Arrival(RecordView, u128),
    /// Something happens to the body of the request with this number.
    Body(int, BodyEventView, u128),
}

impl Traffic {
    /// No request was ever served.
    pub open spec fn none() -> Traffic {
        Traffic { store: MetricsView::unused(), accounts: Seq::empty() }
    }

    /// The event is about a request that was counted, or counts one that was not recorded.
    pub open spec fn allows(self, event: TrafficEvent) -> bool {
        match event {
            TrafficEvent::Arrival(account, _) => !account.recorded && self.accounts.len() < u64::MAX,
            TrafficEvent::Body(i, _, _) => 0 <= i < self.accounts.len(),
        }
    }

    pub open spec fn after(self, event: TrafficEvent) -> Traffic {
        match event {
            TrafficEvent::Arrival(account, now) => Traffic {
                store: self.store.begun(now),
                accounts: self.accounts.push(account),
            },
            TrafficEvent::Body(i, event, now) => Traffic {
                store: self.accounts[i].settled(self.store, event, now),
                accounts: self.accounts.update(i, self.accounts[i].after(event)),
            },
        }
    }

    /// The traffic after a number of events.
    pub open spec fn after_all(events: Seq<TrafficEvent>) -> Traffic
        decreases events.len(),
    {
        if events.len() == 0 {
            Traffic::none()
        } else {
            Traffic::after_all(events.drop_last()).after(events.last())
        }
    }
}

/// Every event of the traffic is one that can happen.
pub open spec fn possible(events: Seq<TrafficEvent>) -> bool
    decreases events.len(),
{
    events.len() == 0 || (possible(events.drop_last()) && Traffic::after_all(
        events.drop_last(),
    ).allows(events.last()))
}

/// How many accounts are not recorded.
pub open spec fn unrecorded(accounts: Seq<RecordView>) -> nat
    decreases accounts.len(),
{
    if accounts.len() == 0 {
        0
    } else {
        unrecorded(accounts.drop_last()) + if accounts.last().recorded {
            0nat
        } else {
            1
        }
    }
}

proof fn lemma_unrecorded_update(accounts: Seq<RecordView>, i: int, account: RecordView)
    requires
        0 <= i < accounts.len(),
        accounts[i].recorded ==> account.recorded,
    ensures
        unrecorded(accounts.update(i, account)) == unrecorded(accounts) - if !accounts[i].recorded
            && account.recorded {
            1int
        } else {
            0
        },
        !accounts[i].recorded ==> unrecorded(accounts) > 0,
        unrecorded(accounts) <= accounts.len(),
    decreases accounts.len(),
{
    let changed = accounts.update(i, account);
    if i < accounts.len() - 1 {
        assert(changed.drop_last() =~= accounts.drop_last().update(i, account));
        lemma_unrecorded_update(accounts.drop_last(), i, account);
    } else {
        assert(changed.drop_last() =~= accounts.drop_last());
        lemma_unrecorded_bound(accounts.drop_last());
    }
}

proof fn lemma_unrecorded_bound(accounts: Seq<RecordView>)
    ensures
        unrecorded(accounts) <= accounts.len(),
    decreases accounts.len(),
{
    if accounts.len() > 0 {
        lemma_unrecorded_bound(accounts.drop_last());
    }
}

/// The counter shows how many of the counted requests are not recorded yet.
pub proof fn counter_shows_unrecorded_requests(events: Seq<TrafficEvent>)
    requires
        possible(events),
    ensures
        Traffic::after_all(events).store.active_requests == unrecorded(
            Traffic::after_all(events).accounts,
        ),
        Traffic::after_all(events).accounts.len() <= u64::MAX,
    decreases events.len(),
{
    if events.len() > 0 {
        counter_shows_unrecorded_requests(events.drop_last());
        let before = Traffic::after_all(events.drop_last());
        lemma_unrecorded_bound(before.accounts);
        match events.last() {
            TrafficEvent::Arrival(account, _) => {
                assert(before.accounts.push(account).drop_last() =~= before.accounts);
            },
            TrafficEvent::Body(i, event, _) => {
                lemma_unrecorded_update(before.accounts, i, before.accounts[i].after(event));
            },
        }
    }
}

/// From its arrival until its body ended, broke off or was dropped, a request keeps the
/// proxy busy, whatever the grace time and whatever happens to other requests meanwhile.
pub proof fn busy_until_the_body_is_through(
    events: Seq<TrafficEvent>,
    i: int,
    grace_nanos: int,
    now: u128,
)
    requires
        possible(events),
        0 <= i < Traffic::after_all(events).accounts.len(),
        !Traffic::after_all(events).accounts[i].recorded,
    ensures
        Traffic::after_all(events).store.busy(grace_nanos, now),
{
    counter_shows_unrecorded_requests(events);
    let accounts = Traffic::after_all(events).accounts;
    lemma_unrecorded_update(accounts, i, accounts[i]);
}

/// An account is recorded by the first event that ends its transfer, and by no other.
pub proof fn recorded_means_through(traffic: Traffic, event: TrafficEvent, i: int)
    requires
        traffic.allows(event),
        0 <= i < traffic.accounts.len(),
        !traffic.accounts[i].recorded,
    ensures
        traffic.after(event).accounts[i].recorded <==> (event matches TrafficEvent::Body(
            k,
            body,
            _,
        ) && k == i && is_final(body)),
{
}

} // verus!
