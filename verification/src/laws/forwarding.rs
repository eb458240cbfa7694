//! What holds of requests on their way: routing, attempts, answers, records and the counts
//! of activity.
use std::time::SystemTime;
use vstd::prelude::*;

use crate::candidate;
use crate::clock;
use crate::headers;
use crate::laws::ranking;
use crate::metrics::Activity;
use crate::metrics::MetricsView;
use crate::metrics;
use crate::proxy::AttemptView;
use crate::proxy::ExchangeView;
use crate::proxy::NextView;
use crate::proxy::ReplyView;
use crate::proxy::RouteView;
use crate::proxy;
use crate::record::BodyEventView;
use crate::record::RecordView;
use crate::record;
use crate::selector::SelectorView;
use crate::text;
use crate::uri;

verus! {

// ---------------------------------------------------------------------------
// Routing
// ---------------------------------------------------------------------------

/// The answer has the status and the text, and says that it is plain text.
pub open spec fn answers_with(reply: ReplyView, status: u16, body: Seq<char>) -> bool {
    &&& reply.status == status
    &&& reply.body == body
    &&& reply.content_type == "text/plain; charset=utf-8"@
}

/// A request without a `Host`, or with one that names no host, is a bad one; one for a host
/// that is not managed is not found; any other goes to the upstream host of its domain,
/// under the name it asked for.
pub proof fn requests_are_routed_by_their_host(sel: SelectorView, field: Option<Seq<char>>)
    ensures
        field is None ==> proxy::routed(sel, field) is Err && answers_with(
            proxy::routed(sel, field)->Err_0,
            400,
            "missing Host header"@,
        ),
        field matches Some(text) ==> match uri::named_host(text) {
            None => proxy::routed(sel, field) is Err && answers_with(
                proxy::routed(sel, field)->Err_0,
                400,
                "invalid Host header"@,
            ),
            Some(host) => if sel.host_for(host) is None {
                proxy::routed(sel, field) is Err && answers_with(
                    proxy::routed(sel, field)->Err_0,
                    404,
                    "host is not managed by xboxproxy"@,
                )
            } else {
                proxy::routed(sel, field) == Ok::<RouteView, ReplyView>(
                    RouteView { host, upstream_host: sel.upstream_host_for(host)->0 },
                )
            },
        },
{
    if let Some(field) = field {
        if let Some(host) = uri::named_host(field) {
            super::managed_hosts_have_upstreams(sel, host);
        }
    }
}

/// What is left of the host from `from` to `to`: brackets were open before it, and dots and,
/// behind them, brackets that close, come after it; there are none of these at its ends.
pub open spec fn is_bare_part(host: Seq<char>, from: int, to: int, dots: int) -> bool {
    &&& 0 <= from <= to <= dots <= host.len()
    &&& forall|i: int| 0 <= i < from ==> #[trigger] host[i] == '['
    &&& forall|i: int| to <= i < dots ==> #[trigger] host[i] == '.'
    &&& forall|i: int| dots <= i < host.len() ==> #[trigger] host[i] == ']'
    &&& from < host.len() ==> host[from] != '['
    &&& from < dots ==> host[dots - 1] != ']'
    &&& from < to ==> host[to - 1] != '.'
}

/// A host is taken without the brackets around it and the dots at its end, in lower case.
pub proof fn hosts_are_taken_bare(host: Seq<char>)
    ensures
        exists|from: int, to: int, dots: int| #[trigger]
            is_bare_part(host, from, to, dots) && uri::bare_host(host) == text::lower(
                host.subrange(from, to),
            ),
{
    let a = text::trim_start(host, text::only('['));
    let b = text::trim_end(a, text::only(']'));
    let c = text::trim_end(b, text::only('.'));
    text::lemma_trim_start(host, text::only('['));
    text::lemma_trim_end(a, text::only(']'));
    text::lemma_trim_end(b, text::only('.'));
    let from = host.len() - a.len();
    let dots = from + b.len();
    let to = from + c.len();
    assert forall|i: int| 0 <= i < from implies #[trigger] host[i] == '[' by {
        assert(text::only('[')(host[i]));
    }
    assert forall|i: int| dots <= i < host.len() implies #[trigger] host[i] == ']' by {
        assert(a[i - from] == host[i]);
        assert(text::only(']')(a[i - from]));
    }
    assert forall|i: int| to <= i < dots implies #[trigger] host[i] == '.' by {
        assert(a[i - from] == host[i]);
        assert(b[i - from] == a[i - from]);
        assert(text::only('.')(b[i - from]));
    }
    if from < host.len() {
        assert(a.first() == host[from]);
    }
    if from < dots {
        assert(b.last() == host[dots - 1]);
    }
    if from < to {
        assert(c.last() == host[to - 1]);
    }
    assert(c =~= host.subrange(from, to));
    assert(is_bare_part(host, from, to, dots));
}

/// A URI names a host exactly where it holds nothing else: the root path, no query, nobody's
/// name, and a host of which something is left when it is taken bare.
pub proof fn hosts_are_named_alone(parsed: uri::UriView)
    ensures
        uri::lone_host(parsed) is Some <==> {
            &&& parsed.path == "/"@
            &&& parsed.query is None
            &&& parsed.authority is Some
            &&& forall|i: int|
                0 <= i < parsed.authority->0.len() ==> #[trigger] parsed.authority->0[i] != '@'
            &&& parsed.host is Some
            &&& uri::bare_host(parsed.host->0).len() > 0
        },
        uri::lone_host(parsed) is Some ==> uri::lone_host(parsed)->0 == uri::bare_host(
            parsed.host->0,
        ),
{
    if parsed.authority is Some {
        let authority = parsed.authority->0;
        if authority.contains('@') {
            let i = choose|i: int| 0 <= i < authority.len() && authority[i] == '@';
            assert(authority[i] == '@');
        }
    }
}

/// A `Host` header names what a URI with it for its authority names, and nothing where there
/// is no such URI.
pub proof fn headers_name_the_host_of_their_uri(header: Seq<char>)
    ensures
        match uri::uri_parse("http://"@ + header + "/"@) {
            Ok(parsed) => uri::named_host(header) == uri::lone_host(parsed),
            Err(_) => uri::named_host(header) is None,
        },
{
}

/// What goes upstream is made of the request: its host and path, its fields that pass, and
/// nothing that was tried before.
pub proof fn exchanges_start_from_the_request(
    route: RouteView,
    path_and_query: Option<Seq<char>>,
    fields: Map<Seq<char>, Seq<Seq<u8>>>,
    method: Seq<char>,
    client_ip: Seq<char>,
)
    ensures
        ({
            let path = proxy::requested_path(path_and_query);
            let x = proxy::opened(route, path, fields, method, client_ip);
            &&& path_and_query matches Some(asked) ==> path == asked
            &&& path_and_query is None ==> path == "/"@
            &&& x.uri == "http://"@ + route.upstream_host + path
            &&& x.fields == headers::forwarded(fields, method, client_ip)
            &&& x.host == route.host
            &&& x.path == path
            &&& x.method == method
            &&& x.client_ip == client_ip
            &&& x.attempts == 0
            &&& x.requested is None
            &&& x.answer is None
            &&& x.error is None
        }),
{
}

/// A connection goes to the port of the group that answers to the host, else to that of the
/// URI, else to the usual one.
pub proof fn groups_decide_on_the_port(sel: SelectorView, parsed: uri::UriView)
    ensures
        ({
            let host = match parsed.host {
                Some(h) => h,
                None => Seq::<char>::empty(),
            };
            let port = proxy::upstream_port_of(sel, parsed);
            &&& uri::host_or_empty(parsed) == host
            &&& sel.group_named(host) matches Some(g) ==> port == sel.groups[g].def.upstream_port
            &&& sel.group_named(host) is None ==> (parsed.port matches Some(p) ==> port == p) && (
            parsed.port is None ==> port == 80)
        }),
{
}

// ---------------------------------------------------------------------------
// Attempts
// ---------------------------------------------------------------------------

/// Only an attempt that failed teaches the selector anything: one that was answered, and one
/// that could not be made, leave it as it is, and so does a failure of no address.
pub proof fn only_failures_teach_the_selector(
    x: ExchangeView,
    sel: SelectorView,
    attempt: AttemptView,
    now: u64,
)
    ensures
        !(attempt is Failed) ==> x.taught(sel, attempt, now) == sel,
        x.requested is None ==> x.taught(sel, attempt, now) == sel,
{
}

/// A failed attempt is held against the address that was asked for, and no other: one more
/// failure now, and out of service until the penalty is over.
pub proof fn failures_are_held_against_the_address(
    x: ExchangeView,
    sel: SelectorView,
    error: Seq<char>,
    now: u64,
    g: int,
    k: int,
)
    requires
        x.requested is Some,
        ranking::stands_at(sel, x.host, x.requested->0, g, k),
    ensures
        ({
            let after = x.taught(sel, AttemptView::Failed(error), now);
            let c = sel.groups[g].candidates[k];
            let d = after.groups[g].candidates[k];
            &&& d.last_fail_ts == now
            &&& d.fails == if c.fails == u32::MAX {
                u32::MAX as int
            } else {
                c.fails + 1
            }
            &&& d.speed_mkbps == c.speed_mkbps
            &&& d.latency_ms == c.latency_ms
            &&& ranking::out_of_service(d, now, sel.failure_penalty)
            &&& after.groups.len() == sel.groups.len()
            &&& forall|i: int|
                0 <= i < sel.groups.len() && i != g ==> after.groups[i] == #[trigger] sel.groups[i]
            &&& forall|j: int|
                0 <= j < sel.groups[g].candidates.len() && j != k
                    ==> after.groups[g].candidates[j] == #[trigger] sel.groups[g].candidates[j]
        }),
{
    let ip = x.requested->0;
    let after = x.taught(sel, AttemptView::Failed(error), now);
    ranking::failure_puts_the_candidate_down(sel, x.host, ip, None, None, now, g, k, now);
    crate::search::lemma_first_is(sel.groups[g].candidates, candidate::at_address(ip), k);
}

/// Another request after an answered one finds the selector as it was, and so the same best
/// address.
pub proof fn answers_keep_the_best_address(
    x: ExchangeView,
    sel: SelectorView,
    answer: proxy::AnswerView,
    now: u64,
    host: Seq<char>,
    later: u64,
)
    ensures
        x.taught(sel, AttemptView::Answered(answer), now).best_ip(host, later) == sel.best_ip(
            host,
            later,
        ),
{
}

/// An attempt counts as one, and goes to the best address of the moment.
pub proof fn attempts_go_to_the_best_address(x: ExchangeView, sel: SelectorView, now: u64)
    requires
        x.attempts < 255,
    ensures
        ({
            let y = x.attempting(sel, now);
            &&& y.attempts == x.attempts + 1
            &&& y.requested == sel.best_ip(x.host, now)
            &&& y.client_ip == x.client_ip
            &&& y.host == x.host
            &&& y.path == x.path
            &&& y.method == x.method
            &&& y.uri == x.uri
            &&& y.fields == x.fields
            &&& y.answer == x.answer
            &&& y.error == x.error
        }),
{
}

/// A failure is followed by another attempt as long as there are any left: three in all for
/// GET and HEAD, one for others. An answer ends the attempts. A request that cannot be put
/// together ends them too, and is refused at once where it may not be repeated.
pub proof fn what_follows_an_attempt(x: ExchangeView, attempt: AttemptView)
    ensures
        ({
            let repeats = x.method == "GET"@ || x.method == "HEAD"@;
            &&& x.next(attempt) is Again <==> attempt is Failed && x.attempts < (if repeats {
                3int
            } else {
                1
            })
            &&& x.next(attempt) is Refuse <==> attempt is BuildFailed && !repeats
            &&& x.next(attempt) matches NextView::Refuse(reply) ==> answers_with(
                reply,
                502,
                "upstream request build failed: "@ + attempt->BuildFailed_0,
            )
        }),
{
}

/// An answer is kept beside what failed before it; of failures the last one is kept. Nothing
/// else of the request changes.
pub proof fn outcomes_are_kept(x: ExchangeView, attempt: AttemptView)
    ensures
        ({
            let y = x.after(attempt);
            let repeats = x.method == "GET"@ || x.method == "HEAD"@;
            &&& attempt matches AttemptView::Answered(answer) ==> y.answer == Some(answer)
                && y.error == x.error
            &&& attempt matches AttemptView::Failed(error) ==> y.error == Some(error) && y.answer
                == x.answer
            &&& attempt matches AttemptView::BuildFailed(error) ==> y.answer == x.answer && (repeats
                ==> y.error == Some(error)) && (!repeats ==> y.error == x.error)
            &&& y.client_ip == x.client_ip
            &&& y.host == x.host
            &&& y.path == x.path
            &&& y.method == x.method
            &&& y.uri == x.uri
            &&& y.fields == x.fields
            &&& y.attempts == x.attempts
            &&& y.requested == x.requested
        }),
{
}

/// A request whose attempts all fail uses all of them, and no more.
pub proof fn failing_requests_use_all_attempts(
    x: ExchangeView,
    sel: SelectorView,
    outcomes: Seq<(u64, AttemptView)>,
)
    requires
        forall|i: int| 0 <= i < outcomes.len() ==> (#[trigger] outcomes[i]).1 is Failed,
        x.attempts < (if x.method == "GET"@ || x.method == "HEAD"@ {
            3int
        } else {
            1
        }),
    ensures
        ({
            let left = (if x.method == "GET"@ || x.method == "HEAD"@ {
                3int
            } else {
                1
            }) - x.attempts;
            super::attempts_made(x, sel, outcomes) == if outcomes.len() < left {
                outcomes.len() as int
            } else {
                left
            }
        }),
    decreases outcomes.len(),
{
    if outcomes.len() > 0 {
        let (now, attempt) = outcomes.first();
        assert(outcomes[0].1 is Failed);
        let trying = x.attempting(sel, now);
        if trying.next(attempt) is Again {
            let rest = outcomes.drop_first();
            assert forall|i: int| 0 <= i < rest.len() implies (#[trigger] rest[i]).1 is Failed by {
                assert(rest[i] == outcomes[i + 1]);
            }
            failing_requests_use_all_attempts(
                trying.after(attempt),
                trying.taught(sel, attempt, now),
                rest,
            );
        }
    }
}

/// What is accounted for is the request as it came and the answer as the upstream gave it;
/// without one it counts as a bad gateway, and the client is told why.
pub proof fn accounts_show_the_request(x: ExchangeView)
    ensures
        ({
            let a = x.account();
            &&& a.meta.client_ip == x.client_ip
            &&& a.meta.host == x.host
            &&& a.meta.path == x.path
            &&& a.meta.method == x.method
            &&& !a.meta.passthrough
            &&& a.bytes == 0
            &&& !a.recorded
            &&& a.error == x.error
            &&& x.answer matches Some(answer) ==> a.meta.status == answer.status
                && a.meta.upstream_ip == answer.upstream_ip && a.meta.ttfb_ms == answer.ttfb_ms
                && x.own_reply() is None
            &&& x.answer is None ==> {
                &&& a.meta.status == 502
                &&& a.meta.upstream_ip is None
                &&& a.meta.ttfb_ms == 0
                &&& x.own_reply() is Some
                &&& x.error matches Some(error) ==> answers_with(
                    x.own_reply()->0,
                    502,
                    "upstream unreachable: "@ + error,
                )
                &&& x.error is None ==> answers_with(
                    x.own_reply()->0,
                    502,
                    "upstream unreachable"@,
                )
            }
        }),
{
}

// ---------------------------------------------------------------------------
// Records
// ---------------------------------------------------------------------------

/// A rate is the number of bits per second in thousandths of 1024 of them, rounded down; it
/// stands at the most that fits where it is more, and at zero where no time passed.
pub proof fn rates_are_bits_per_second(bytes: u64, nanos: u128)
    ensures
        nanos == 0 ==> record::rate_mkbps(bytes, nanos) == 0,
        nanos > 0 ==> {
            let rate = record::rate_mkbps(bytes, nanos) as int;
            let bits = bytes as int * 8 * 1000 * 1_000_000_000;
            &&& rate * 1024 * nanos <= bits
            &&& rate < u64::MAX ==> bits < (rate + 1) * 1024 * nanos
        },
{
    if nanos > 0 {
        let n = nanos as int;
        let total = bytes as int * 7_812_500_000;
        let q = total / n;
        let rate = record::rate_mkbps(bytes, nanos) as int;
        vstd::arithmetic::div_mod::lemma_fundamental_div_mod(total, n);
        vstd::arithmetic::div_mod::lemma_mod_bound(total, n);
        assert(q >= 0) by (nonlinear_arith)
            requires
                q == total / n,
                total >= 0,
                n > 0,
        ;
        assert(rate <= q);
        assert(n * rate <= n * q) by (nonlinear_arith)
            requires
                rate <= q,
                n > 0,
        ;
        assert(rate * 1024 * n == 1024 * (n * rate)) by (nonlinear_arith);
        assert((q + 1) * 1024 * n == 1024 * (n * q + n)) by (nonlinear_arith);
    }
}

proof fn lemma_low_bits(n: u128)
    ensures
        n as u64 == n % 0x1_0000_0000_0000_0000,
{
    assert(n as u64 == n % 0x1_0000_0000_0000_0000) by (bit_vector);
}

/// A time in milliseconds is the whole ones where they fit in 64 bits, and else their 64
/// lower bits.
pub proof fn milliseconds_are_whole_ones(nanos: u128)
    ensures
        exists|whole: u128| #[trigger]
            is_whole_units(whole, nanos, 1_000_000) && record::millis(nanos) == whole
                % 0x1_0000_0000_0000_0000,
{
    lemma_low_bits(nanos / 1_000_000);
    assert(is_whole_units(nanos / 1_000_000, nanos, 1_000_000));
}

/// So many whole units, of `unit` nanoseconds each, have gone by.
pub open spec fn is_whole_units(whole: u128, nanos: u128, unit: int) -> bool {
    whole * unit <= nanos < (whole + 1) * unit
}

/// A record shows what was asked for, what was answered, how much was sent and how long it
/// took.
pub proof fn records_show_the_transfer(a: RecordView, elapsed_nanos: u128, now: u128)
    ensures
        ({
            let r = a.entry(elapsed_nanos, now);
            &&& r.ts == clock::secs(now) as i64
            &&& r.client_ip == a.meta.client_ip
            &&& r.host == a.meta.host
            &&& r.path == a.meta.path
            &&& r.method == a.meta.method
            &&& r.status == a.meta.status
            &&& r.bytes == a.bytes
            &&& r.duration_ms == record::millis(elapsed_nanos)
            &&& r.ttfb_ms == a.meta.ttfb_ms
            &&& r.throughput_mkbps == record::rate_mkbps(a.bytes, elapsed_nanos)
            &&& r.upstream_ip == a.meta.upstream_ip
            &&& r.passthrough == a.meta.passthrough
            &&& r.error == a.error
        }),
{
}

/// A record is made by the first event that is no piece of the body, of what was sent until
/// then; that event is the end of the request in flight. A piece only adds its length.
pub proof fn transfers_end_with_their_first_final_event(
    a: RecordView,
    store: MetricsView,
    event: BodyEventView,
    elapsed_nanos: u128,
    now: u128,
)
    ensures
        ({
            let made = a.emitted(event, elapsed_nanos, now);
            let b = a.after(event);
            let left = a.settled(store, event, now);
            &&& made is Some <==> !a.recorded && !(event is Chunk)
            &&& made matches Some(r) ==> {
                &&& r == b.entry(elapsed_nanos, now)
                &&& r.bytes == a.bytes
                &&& r.status == a.meta.status
                &&& r.error == if event is Failed {
                    Some(event->Failed_0)
                } else {
                    a.error
                }
                &&& left.last_activity == now
                &&& store.active_requests > 0 ==> left.active_requests == store.active_requests - 1
                &&& store.active_requests == 0 ==> left.active_requests == u64::MAX
            }
            &&& made is None ==> left == store
            &&& b.recorded == (a.recorded || !(event is Chunk))
            &&& event matches BodyEventView::Chunk(len) ==> b.error == a.error && b.bytes == if a.bytes
                + len <= u64::MAX {
                a.bytes + len
            } else {
                a.bytes + len - u64::MAX - 1
            }
            &&& !(event is Chunk) ==> b.bytes == a.bytes
            &&& event matches BodyEventView::Failed(error) ==> b.error == Some(error)
            &&& b.meta == a.meta
        }),
{
}

/// Of the failures of a body the last one is kept, and what failed before the body where it
/// never failed.
pub open spec fn last_failure(error: Option<Seq<char>>, events: Seq<BodyEventView>) -> Option<
    Seq<char>,
>
    decreases events.len(),
{
    if events.len() == 0 {
        error
    } else {
        match events.last() {
            BodyEventView::Failed(e) => Some(e),
            _ => last_failure(error, events.drop_last()),
        }
    }
}

/// The account keeps the last failure.
pub proof fn the_last_failure_is_kept(a: RecordView, events: Seq<BodyEventView>)
    ensures
        a.after_all(events).error == last_failure(a.error, events),
    decreases events.len(),
{
    if events.len() > 0 {
        the_last_failure_is_kept(a, events.drop_last());
    }
}

// ---------------------------------------------------------------------------
// Activity and time
// ---------------------------------------------------------------------------

/// The last activity is the last time that a request began or ended.
pub proof fn the_last_event_is_the_last_activity(history: Seq<Activity>)
    ensures
        history.len() == 0 ==> metrics::after(history).last_activity == 0,
        history.len() > 0 ==> metrics::after(history).last_activity == match history.last() {
            Activity::Begin(now) => now,
            Activity::End(now) => now,
        },
{
}

/// The proxy is busy while requests are open, and until the grace time after the last
/// activity is over; a clock that was set back does not end it.
pub proof fn busy_until_the_grace_time_is_over(m: MetricsView, grace_nanos: int, now: u128)
    ensures
        m.busy(grace_nanos, now) <==> m.active_requests > 0 || (grace_nanos > 0 && now
            < m.last_activity + grace_nanos),
{
}

/// Unix time is the whole seconds from the epoch to the reading, and zero before it.
pub proof fn unix_time_is_whole_seconds(reading: SystemTime)
    ensures
        clock::instant_nanos(reading) < 0 ==> clock::unix_time(reading) == 0
            && clock::unix_nanos(reading) == 0,
        clock::instant_nanos(reading) >= 0 ==> clock::unix_nanos(reading) == clock::instant_nanos(
            reading,
        ) && clock::unix_time(reading) * 1_000_000_000 <= clock::instant_nanos(reading) < (
        clock::unix_time(reading) + 1) * 1_000_000_000,
{
}

/// A time in seconds is the whole ones where they fit in 64 bits, and else their 64 lower
/// bits.
pub proof fn seconds_are_whole_ones(nanos: u128)
    ensures
        exists|whole: u128| #[trigger]
            is_whole_units(whole, nanos, 1_000_000_000) && clock::secs(nanos) == whole
                % 0x1_0000_0000_0000_0000,
{
    lemma_low_bits(nanos / 1_000_000_000);
    assert(is_whole_units(nanos / 1_000_000_000, nanos, 1_000_000_000));
}

} // verus!
