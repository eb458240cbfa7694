//! The course of one proxied request: which host it is for, what goes to the
//! upstream, how often it is tried, and what is answered.
use http::HeaderMap;
use vstd::prelude::*;

use crate::candidate::Ip;
use crate::clock;
use crate::db::RequestRecord;
use crate::headers::TooManyHeaders;
use crate::headers;
use crate::metrics::ActivityGuard;
use crate::metrics::MetricsStore;
use crate::record::RecordState;
use crate::record::RequestMeta;
use crate::record;
use crate::selector::Selector;
use crate::selector::SelectorView;
use crate::selector::Target;
use crate::selector;
use crate::text;
use crate::uri::UriParts;
use crate::uri;

verus! {

broadcast use vstd::string::group_string_axioms;

/// How long the upstream may take, in seconds, to send response headers after the
/// connection is established. Some CDN addresses accept TCP connections and then
/// never respond; without this cap a single dead address would hang requests.
pub const UPSTREAM_HEADER_TIMEOUT_SEC: u64 = 30;

pub const TEXT_PLAIN: &'static str = "text/plain; charset=utf-8";

/// An answer of the proxy's own.
#[derive(Debug, Clone)]
pub struct Reply {
    pub status: u16,
    pub content_type: &'static str,
    pub body: String,
}

#[verifier::ext_equal]
pub struct ReplyView {
    pub status: u16,
    pub content_type: Seq<char>,
    pub body: Seq<char>,
}

impl View for Reply {
    type V = ReplyView;

    open spec fn view(&self) -> ReplyView {
        ReplyView { status: self.status, content_type: self.content_type@, body: self.body@ }
    }
}

/// The answer with a status and a plain text.
pub open spec fn plain(status: u16, body: Seq<char>) -> ReplyView {
    ReplyView { status, content_type: TEXT_PLAIN@, body }
}

pub fn bad_request(msg: &str) -> (r: Reply)
    ensures
        r@ == plain(400, msg@),
{
    Reply { status: 400, content_type: TEXT_PLAIN, body: msg.to_owned() }
}

pub fn not_found() -> (r: Reply)
    ensures
        r@ == plain(404, "host is not managed by xboxproxy"@),
{
    Reply {
        status: 404,
        content_type: TEXT_PLAIN,
        body: "host is not managed by xboxproxy".to_owned(),
    }
}

pub fn service_unavailable(msg: String) -> (r: Reply)
    ensures
        r@ == plain(502, msg@),
{
    Reply { status: 502, content_type: TEXT_PLAIN, body: msg }
}

// ---------------------------------------------------------------------------
// Routing
// ---------------------------------------------------------------------------

/// The host that a request is for, and the host to send to the CDN.
#[derive(Debug)]
pub struct Route {
    pub host: String,
    pub upstream_host: String,
}

#[verifier::ext_equal]
pub struct RouteView {
    pub host: Seq<char>,
    pub upstream_host: Seq<char>,
}

impl View for Route {
    type V = RouteView;

    open spec fn view(&self) -> RouteView {
        RouteView { host: self.host@, upstream_host: self.upstream_host@ }
    }
}

/// A route, or the answer to a request that has none.
pub open spec fn routing_view(r: Result<Route, Reply>) -> Result<RouteView, ReplyView> {
    match r {
        Ok(route) => Ok(route@),
        Err(reply) => Err(reply@),
    }
}

/// The route of a request whose `Host` header names `named`: managed hosts have
/// one, all others are not found.
pub open spec fn admission(sel: SelectorView, named: Option<Seq<char>>) -> Result<
    RouteView,
    ReplyView,
> {
    match named {
        None => Err(plain(400, "invalid Host header"@)),
        Some(host) => match sel.upstream_host_for(host) {
            None => Err(plain(404, "host is not managed by xboxproxy"@)),
            Some(upstream_host) => Ok(RouteView { host, upstream_host }),
        },
    }
}

/// The route of a request with the given `Host` header field.
pub open spec fn routed(sel: SelectorView, host_field: Option<Seq<char>>) -> Result<
    RouteView,
    ReplyView,
> {
    match host_field {
        None => Err(plain(400, "missing Host header"@)),
        Some(field) => admission(sel, uri::named_host(field)),
    }
}

/// The route of a request for the named host.
pub fn route_for(selector: &Selector, named: Option<String>) -> (r: Result<Route, Reply>)
    ensures
        routing_view(r) == admission(selector@, text::opt_text(named)),
{
    match named {
        None => Err(bad_request("invalid Host header")),
        Some(host) => match selector.upstream_host_for(&host) {
            None => Err(not_found()),
            Some(upstream) => {
                let upstream_host = upstream.to_owned();
                Ok(Route { host, upstream_host })
            },
        },
    }
}

/// Finds the route of a request by its header and, where there is one, counts the
/// request as in flight since `now`. A request that is turned away is not counted.
pub fn route_at(selector: &Selector, metrics: &mut MetricsStore, fields: &HeaderMap, now: u128) -> (r:
    Result<(Route, ActivityGuard), Reply>)
    ensures
        match r {
            Ok((route, _)) => {
                &&& routed(selector@, headers::host_field(headers::header_fields(*fields))) == Ok::<
                    RouteView,
                    ReplyView,
                >(route@)
                &&& final(metrics)@ == old(metrics)@.begun(now)
            },
            Err(reply) => {
                &&& routed(selector@, headers::host_field(headers::header_fields(*fields))) == Err::<
                    RouteView,
                    ReplyView,
                >(reply@)
                &&& final(metrics)@ == old(metrics)@
            },
        },
{
    let found = match headers::host_header(fields) {
        None => Err(bad_request("missing Host header")),
        Some(field) => route_for(selector, uri::host_name_from_header(&field)),
    };
    match found {
        Ok(route) => {
            let guard = metrics.begin_request_at(now);
            Ok((route, guard))
        },
        Err(reply) => Err(reply),
    }
}

/// Finds the route of a request and counts it as in flight from now on.
pub fn route(selector: &Selector, metrics: &mut MetricsStore, fields: &HeaderMap) -> (r: Result<
    (Route, ActivityGuard),
    Reply,
>)
    ensures
        match r {
            Ok((route, _)) => {
                &&& routed(selector@, headers::host_field(headers::header_fields(*fields))) == Ok::<
                    RouteView,
                    ReplyView,
                >(route@)
                &&& exists|now: u128| final(metrics)@ == #[trigger] old(metrics)@.begun(now)
            },
            Err(reply) => {
                &&& routed(selector@, headers::host_field(headers::header_fields(*fields))) == Err::<
                    RouteView,
                    ReplyView,
                >(reply@)
                &&& final(metrics)@ == old(metrics)@
            },
        },
{
    let now = clock::now_nanos();
    route_at(selector, metrics, fields, now)
}

// ---------------------------------------------------------------------------
// Attempts
// ---------------------------------------------------------------------------

/// What the upstream answered: its status, the address that was connected to and
/// the milliseconds until the response headers came.
#[derive(Debug)]
pub struct Answer {
    pub status: u16,
    pub upstream_ip: Option<String>,
    pub ttfb_ms: u64,
}

#[verifier::ext_equal]
pub struct AnswerView {
    pub status: u16,
    pub upstream_ip: Option<Seq<char>>,
    pub ttfb_ms: u64,
}

impl View for Answer {
    type V = AnswerView;

    open spec fn view(&self) -> AnswerView {
        AnswerView {
            status: self.status,
            upstream_ip: text::opt_text(self.upstream_ip),
            ttfb_ms: self.ttfb_ms,
        }
    }
}

/// How an attempt came out.
#[derive(Debug)]
pub enum Attempt {
    /// The request could not be put together.
    BuildFailed(String),
    /// The upstream was not reached, or did not answer.
    Failed(String),
    Answered(Answer),
}

pub enum AttemptView {
    BuildFailed(Seq<char>),
    Failed(Seq<char>),
    Answered(AnswerView),
}

impl View for Attempt {
    type V = AttemptView;

    open spec fn view(&self) -> AttemptView {
        match *self {
            Attempt::BuildFailed(error) => AttemptView::BuildFailed(error@),
            Attempt::Failed(error) => AttemptView::Failed(error@),
            Attempt::Answered(answer) => AttemptView::Answered(answer@),
        }
    }
}

/// What to do after an attempt.
#[derive(Debug)]
pub enum Next {
    /// Try once more.
    Again,
    /// Answer the client by what came of the attempts.
    Finish,
    /// Answer the client with this, and keep no record.
    Refuse(Reply),
}

pub enum NextView {
    Again,
    Finish,
    Refuse(ReplyView),
}

impl View for Next {
    type V = NextView;

    open spec fn view(&self) -> NextView {
        match *self {
            Next::Again => NextView::Again,
            Next::Finish => NextView::Finish,
            Next::Refuse(reply) => NextView::Refuse(reply@),
        }
    }
}

/// A request in the course of being forwarded.
#[verifier::ext_equal]
pub struct ExchangeView {
    pub client_ip: Seq<char>,
    pub host: Seq<char>,
    pub path: Seq<char>,
    pub method: Seq<char>,
    /// The URI and the header fields of the upstream request.
    pub uri: Seq<char>,
    pub fields: Map<Seq<char>, Seq<Seq<u8>>>,
    pub attempts: u8,
    /// The address that the last attempt asked for.
    pub requested: Option<Ip>,
    pub answer: Option<AnswerView>,
    /// Why the last failed attempt failed.
    pub error: Option<Seq<char>>,
}

/// Requests that are safe to repeat are tried three times at most, others once.
pub open spec fn max_attempts(method: Seq<char>) -> int {
    if headers::is_repeatable(method) {
        3
    } else {
        1
    }
}

pub open spec fn build_failure(error: Seq<char>) -> Seq<char> {
    "upstream request build failed: "@ + error
}

impl ExchangeView {
    /// One more attempt, on the best address at `now`.
    pub open spec fn attempting(self, sel: SelectorView, now: u64) -> ExchangeView {
        ExchangeView {
            attempts: (self.attempts + 1) as u8,
            requested: sel.best_ip(self.host, now),
            ..self
        }
    }

    /// The exchange after an attempt.
    pub open spec fn after(self, attempt: AttemptView) -> ExchangeView {
        match attempt {
            AttemptView::BuildFailed(error) => if headers::is_repeatable(self.method) {
                ExchangeView { error: Some(error), ..self }
            } else {
                self
            },
            AttemptView::Failed(error) => ExchangeView { error: Some(error), ..self },
            AttemptView::Answered(answer) => ExchangeView { answer: Some(answer), ..self },
        }
    }

    /// What follows an attempt.
    pub open spec fn next(self, attempt: AttemptView) -> NextView {
        match attempt {
            AttemptView::BuildFailed(error) => if headers::is_repeatable(self.method) {
                NextView::Finish
            } else {
                NextView::Refuse(plain(502, build_failure(error)))
            },
            AttemptView::Failed(_) => if self.attempts < max_attempts(self.method) {
                NextView::Again
            } else {
                NextView::Finish
            },
            AttemptView::Answered(_) => NextView::Finish,
        }
    }

    /// What the selector learns of an attempt: that the address failed.
    pub open spec fn taught(self, sel: SelectorView, attempt: AttemptView, now: u64) -> SelectorView {
        match (attempt, self.requested) {
            (AttemptView::Failed(_), Some(ip)) => sel.updated(
                self.host,
                ip,
                None,
                None,
                false,
                now,
            ),
            _ => sel,
        }
    }

    /// What is recorded of the request.
    pub open spec fn meta(self) -> record::RequestMetaView {
        record::RequestMetaView {
            client_ip: self.client_ip,
            host: self.host,
            path: self.path,
            method: self.method,
            status: match self.answer {
                Some(answer) => answer.status,
                None => 502,
            },
            upstream_ip: match self.answer {
                Some(answer) => answer.upstream_ip,
                None => None,
            },
            passthrough: false,
            ttfb_ms: match self.answer {
                Some(answer) => answer.ttfb_ms,
                None => 0,
            },
        }
    }

    /// The account of the reply to the client.
    pub open spec fn account(self) -> record::RecordView {
        record::RecordView { meta: self.meta(), bytes: 0, recorded: false, error: self.error }
    }

    /// The answer to the client where the upstream gave none.
    pub open spec fn own_reply(self) -> Option<ReplyView> {
        match self.answer {
            Some(_) => None,
            None => Some(
                plain(
                    502,
                    match self.error {
                        Some(error) => "upstream unreachable: "@ + error,
                        None => "upstream unreachable"@,
                    },
                ),
            ),
        }
    }
}

/// The URI of the upstream request.
pub open spec fn upstream_uri(upstream_host: Seq<char>, path: Seq<char>) -> Seq<char> {
    "http://"@ + upstream_host + path
}

fn join_uri(upstream_host: &str, path: &str) -> (r: String)
    ensures
        r@ == upstream_uri(upstream_host@, path@),
{
    text::joined(&text::joined("http://", upstream_host), path)
}

/// The path and query that a request asks for.
pub open spec fn requested_path(path_and_query: Option<Seq<char>>) -> Seq<char> {
    match path_and_query {
        Some(path) => path,
        None => "/"@,
    }
}

/// A request that was not tried yet.
pub open spec fn opened(
    route: RouteView,
    path: Seq<char>,
    fields: Map<Seq<char>, Seq<Seq<u8>>>,
    method: Seq<char>,
    client_ip: Seq<char>,
) -> ExchangeView {
    ExchangeView {
        client_ip,
        host: route.host,
        path,
        method,
        uri: upstream_uri(route.upstream_host, path),
        fields: headers::forwarded(fields, method, client_ip),
        attempts: 0,
        requested: None,
        answer: None,
        error: None,
    }
}

/// Why a request cannot be forwarded.
#[derive(Debug)]
pub enum Refusal {
    Answer(Reply),
    TooManyHeaders,
}

/// A request in the course of being forwarded.
#[derive(Debug)]
pub struct Exchange {
    pub client_ip: String,
    pub host: String,
    pub path: String,
    pub method: String,
    pub uri: String,
    pub headers: HeaderMap,
    pub attempts: u8,
    pub requested: Option<Ip>,
    pub answer: Option<Answer>,
    pub error: Option<String>,
}

impl View for Exchange {
    type V = ExchangeView;

    open spec fn view(&self) -> ExchangeView {
        ExchangeView {
            client_ip: self.client_ip@,
            host: self.host@,
            path: self.path@,
            method: self.method@,
            uri: self.uri@,
            fields: headers::header_fields(self.headers),
            attempts: self.attempts,
            requested: self.requested,
            answer: match self.answer {
                Some(answer) => Some(answer@),
                None => None,
            },
            error: text::opt_text(self.error),
        }
    }
}

/// What is left to do once a request was tried: keep the account, and answer the
/// client with `reply`, or, without one, with what the upstream sent.
#[derive(Debug)]
pub struct Outcome {
    pub record: RecordState,
    pub reply: Option<Reply>,
}

pub open spec fn reply_view(reply: Option<Reply>) -> Option<ReplyView> {
    match reply {
        Some(r) => Some(r@),
        None => None,
    }
}

impl Exchange {
    /// Puts the upstream request together, given what its URI was parsed to.
    pub fn with_uri(
        route: Route,
        path: String,
        parsed: &Result<UriParts, String>,
        fields: &HeaderMap,
        method: &str,
        client_ip: &str,
    ) -> (r: Result<Exchange, Refusal>)
        ensures
            match r {
                Ok(x) => parsed is Ok && x@ == opened(
                    route@,
                    path@,
                    headers::header_fields(*fields),
                    method@,
                    client_ip@,
                ),
                Err(Refusal::Answer(reply)) => parsed is Err && reply@ == plain(
                    400,
                    "invalid request URI"@,
                ),
                Err(Refusal::TooManyHeaders) => parsed is Ok,
            },
            parsed is Ok && headers::names_within(
                headers::header_fields(*fields),
                headers::ROOMY_NAMES - 1,
            ) ==> r is Ok,
    {
        if parsed.is_err() {
            return Err(Refusal::Answer(bad_request("invalid request URI")));
        }
        let uri = join_uri(&route.upstream_host, &path);
        match headers::forward_headers(fields, method, client_ip) {
            Ok(fwd) => Ok(
                Exchange {
                    client_ip: client_ip.to_owned(),
                    host: route.host,
                    path,
                    method: method.to_owned(),
                    uri,
                    headers: fwd,
                    attempts: 0,
                    requested: None,
                    answer: None,
                    error: None,
                },
            ),
            Err(_) => Err(Refusal::TooManyHeaders),
        }
    }

    /// Puts the upstream request for a routed request together.
    pub fn open(
        route: Route,
        fields: &HeaderMap,
        method: &str,
        path_and_query: Option<&str>,
        client_ip: &str,
    ) -> (r: Result<Exchange, Refusal>)
        ensures
            ({
                let path = requested_path(text::opt_str(path_and_query));
                let parsed = uri::uri_parse(upstream_uri(route.upstream_host@, path));
                &&& match r {
                    Ok(x) => parsed is Ok && x@ == opened(
                        route@,
                        path,
                        headers::header_fields(*fields),
                        method@,
                        client_ip@,
                    ),
                    Err(Refusal::Answer(reply)) => parsed is Err && reply@ == plain(
                        400,
                        "invalid request URI"@,
                    ),
                    Err(Refusal::TooManyHeaders) => parsed is Ok,
                }
                &&& parsed is Ok && headers::names_within(
                    headers::header_fields(*fields),
                    headers::ROOMY_NAMES - 1,
                ) ==> r is Ok
            }),
    {
        let path = match path_and_query {
            Some(p) => p.to_owned(),
            None => "/".to_owned(),
        };
        let parsed = uri::parse_uri(&join_uri(&route.upstream_host, &path));
        Exchange::with_uri(route, path, &parsed, fields, method, client_ip)
    }

    /// Whether one more attempt is allowed.
    pub fn may_attempt(&self) -> (r: bool)
        ensures
            r == (self.attempts < max_attempts(self.method@)),
    {
        if headers::repeatable(&self.method) {
            self.attempts < 3
        } else {
            self.attempts < 1
        }
    }

    /// Starts an attempt on the best address at `now`, if there is one.
    pub fn attempt_at(&mut self, selector: &Selector, now: u64) -> (r: Option<Ip>)
        requires
            old(self).attempts < max_attempts(old(self).method@),
        ensures
            final(self)@ == old(self)@.attempting(selector@, now),
            r == selector@.best_ip(old(self)@.host, now),
    {
        self.attempts = self.attempts + 1;
        self.requested = selector.best_ip_at(&self.host, now);
        self.requested
    }

    /// Takes in how the attempt came out, at `now`; a failure is held against the
    /// address that was asked for.
    pub fn conclude_at(&mut self, selector: &mut Selector, attempt: Attempt, now: u64) -> (r: Next)
        ensures
            final(self)@ == old(self)@.after(attempt@),
            final(selector)@ == old(self)@.taught(old(selector)@, attempt@, now),
            r@ == old(self)@.next(attempt@),
    {
        match attempt {
            Attempt::BuildFailed(error) => {
                if headers::repeatable(&self.method) {
                    self.error = Some(error);
                    Next::Finish
                } else {
                    Next::Refuse(
                        service_unavailable(
                            text::joined("upstream request build failed: ", &error),
                        ),
                    )
                }
            },
            Attempt::Failed(error) => {
                self.error = Some(error);
                match self.requested {
                    Some(ip) => selector.mark_failure_at(&self.host, ip, now),
                    None => {},
                }
                if self.may_attempt() {
                    Next::Again
                } else {
                    Next::Finish
                }
            },
            Attempt::Answered(answer) => {
                self.answer = Some(answer);
                Next::Finish
            },
        }
    }

    /// Closes the exchange; its account keeps the request in flight.
    pub fn finish(self, guard: ActivityGuard) -> (r: Outcome)
        ensures
            r.record@ == self@.account(),
            reply_view(r.reply) == self@.own_reply(),
    {
        let reply = match &self.answer {
            Some(_) => None,
            None => Some(
                service_unavailable(
                    match &self.error {
                        Some(error) => text::joined("upstream unreachable: ", error),
                        None => "upstream unreachable".to_owned(),
                    },
                ),
            ),
        };
        let (status, upstream_ip, ttfb_ms): (u16, Option<String>, u64) = match self.answer {
            Some(answer) => (answer.status, answer.upstream_ip, answer.ttfb_ms),
            None => (502, None, 0),
        };
        let meta = RequestMeta {
            client_ip: self.client_ip,
            host: self.host,
            path: self.path,
            method: self.method,
            status,
            upstream_ip,
            passthrough: false,
            ttfb_ms,
        };
        Outcome { record: RecordState::new(meta, self.error, guard), reply }
    }
}

/// Ends the account of a request that the upstream did not answer, and gives the
/// answer to the client.
pub fn record_and_unavailable(
    state: &mut RecordState,
    metrics: &mut MetricsStore,
    msg: String,
    elapsed_nanos: u128,
    now: u128,
) -> (r: (Option<RequestRecord>, Reply))
    ensures
        final(state)@ == old(state)@.closed(),
        record::entry_view(r.0) == old(state)@.emitted(
            record::BodyEventView::Ended,
            elapsed_nanos,
            now,
        ),
        final(metrics)@ == old(state)@.settled(
            old(metrics)@,
            record::BodyEventView::Ended,
            now,
        ),
        r.1@ == plain(502, msg@),
{
    (record::finalize(state, metrics, elapsed_nanos, now), service_unavailable(msg))
}

/// The header fields of the answer to the client.
pub fn delivered_headers(fields: &HeaderMap) -> (r: Result<HeaderMap, Reply>)
    ensures
        match r {
            Ok(kept) => headers::header_fields(kept) == headers::returned(
                headers::header_fields(*fields),
            ),
            Err(reply) => reply@ == plain(502, "response build failed: max size reached"@),
        },
        headers::names_within(headers::header_fields(*fields), headers::ROOMY_NAMES as int) ==> r
            is Ok,
{
    match headers::reply_headers(fields) {
        Ok(kept) => Ok(kept),
        Err(_) => Err(service_unavailable("response build failed: max size reached".to_owned())),
    }
}

// ---------------------------------------------------------------------------
// Connections
// ---------------------------------------------------------------------------

/// The port to connect to for an upstream request: that of the group, else that of
/// the URI, else 80.
pub open spec fn upstream_port_of(sel: SelectorView, uri: uri::UriView) -> u16 {
    match sel.upstream_port(uri::host_or_empty(uri)) {
        Some(port) => port,
        None => match uri.port {
            Some(port) => port,
            None => 80,
        },
    }
}

/// Where to connect to for an upstream request to `uri` at `now`, given the address
/// that the request asks for, if it asks for one.
pub fn connect_target_at(selector: &Selector, uri: &UriParts, current: Option<Ip>, now: u64) -> (r:
    Result<Target, String>)
    ensures
        ({
            let host = uri::host_or_empty(uri@);
            let port = upstream_port_of(selector@, uri@);
            match selector@.resolved(current, host, port, now) {
                Some(target) => r == Ok::<Target, String>(target),
                None => r is Err && r->Err_0@ == selector::not_found_message(host, port),
            }
        }),
{
    let host = uri::host_text(uri);
    let port: u16 = match selector.upstream_port(&host) {
        Some(p) => p,
        None => match uri.port {
            Some(p) => p,
            None => 80,
        },
    };
    selector.resolve_at(current, &host, port, now)
}

} // verus!
