//! One speed test pass: which candidates it measures, in which order, and what a
//! measurement says.
use vstd::prelude::*;

use crate::candidate::Ip;
use crate::db::SpeedTestRecord;
use crate::db;
use crate::metrics::MetricsStore;
use crate::record;
use crate::selector::HostDef;
use crate::selector::HostDefView;
use crate::selector::Selector;
use crate::selector::SelectorView;
use crate::selector;
use crate::speedtest::SpeedTestConfig;
use crate::speedtest::ACTIVITY_GRACE_NANOS;
use crate::text;
use crate::uri::UriParts;
use crate::uri::UriView;
use crate::uri;

verus! {

broadcast use vstd::string::group_string_axioms;

// ---------------------------------------------------------------------------
// Targets
// ---------------------------------------------------------------------------

/// Why a URL cannot be tested.
#[derive(Debug)]
pub enum TargetError {
    /// It is no URL, for this reason.
    InvalidUrl(String),
    NoHost,
    /// Its host, given here, belongs to no group.
    Unmanaged(String),
}

pub enum TargetErrorView {
    InvalidUrl(Seq<char>),
    NoHost,
    Unmanaged(Seq<char>),
}

impl View for TargetError {
    type V = TargetErrorView;

    open spec fn view(&self) -> TargetErrorView {
        match *self {
            TargetError::InvalidUrl(reason) => TargetErrorView::InvalidUrl(reason@),
            TargetError::NoHost => TargetErrorView::NoHost,
            TargetError::Unmanaged(host) => TargetErrorView::Unmanaged(host@),
        }
    }
}

pub open spec fn target_message(e: TargetErrorView) -> Seq<char> {
    match e {
        TargetErrorView::InvalidUrl(reason) => "invalid test URL: "@ + reason,
        TargetErrorView::NoHost => "test URL has no host"@,
        TargetErrorView::Unmanaged(host) => "test URL host "@ + text::debug_text(host)
            + " is not a managed Xbox CDN domain"@,
    }
}

impl TargetError {
    pub fn message(&self) -> (r: String)
        ensures
            r@ == target_message(self@),
    {
        match self {
            TargetError::InvalidUrl(reason) => text::joined("invalid test URL: ", reason),
            TargetError::NoHost => "test URL has no host".to_owned(),
            TargetError::Unmanaged(host) => text::joined(
                &text::joined("test URL host ", &text::quoted(host)),
                " is not a managed Xbox CDN domain",
            ),
        }
    }
}

/// The groups to test and, where a URL was given, what it is.
#[verifier::ext_equal]
pub struct TargetsView {
    pub defs: Seq<HostDefView>,
    pub uri: Option<UriView>,
}

#[derive(Debug)]
pub struct Targets {
    pub defs: Vec<HostDef>,
    pub uri: Option<UriParts>,
}

impl View for Targets {
    type V = TargetsView;

    open spec fn view(&self) -> TargetsView {
        TargetsView {
            defs: selector::def_views(self.defs@),
            uri: match self.uri {
                Some(parts) => Some(parts@),
                None => None,
            },
        }
    }
}

pub open spec fn targeting_view(r: Result<Targets, TargetError>) -> Result<
    TargetsView,
    TargetErrorView,
> {
    match r {
        Ok(targets) => Ok(targets@),
        Err(e) => Err(e@),
    }
}

/// The single group that owns the host of a URL.
pub open spec fn url_target(sel: SelectorView, parsed: Result<UriView, Seq<char>>) -> Result<
    TargetsView,
    TargetErrorView,
> {
    match parsed {
        Err(reason) => Err(TargetErrorView::InvalidUrl(reason)),
        Ok(uri) => match uri.host {
            None => Err(TargetErrorView::NoHost),
            Some(host) => match sel.host_for(host) {
                None => Err(TargetErrorView::Unmanaged(host)),
                Some(def) => Ok(TargetsView { defs: seq![def], uri: Some(uri) }),
            },
        },
    }
}

/// The groups to test: all of them, or the one that owns the host of a URL.
pub open spec fn targets(sel: SelectorView, url_override: Option<Seq<char>>) -> Result<
    TargetsView,
    TargetErrorView,
> {
    match url_override {
        None => Ok(TargetsView { defs: sel.defs(), uri: None }),
        Some(raw) => url_target(sel, uri::uri_parse(raw)),
    }
}

/// The group to test for a URL, given what the URL was parsed to.
pub fn target_for(selector: &Selector, parsed: Result<UriParts, String>) -> (r: Result<
    Targets,
    TargetError,
>)
    ensures
        targeting_view(r) == url_target(selector@, uri::parsed_view(parsed)),
{
    let uri = match parsed {
        Ok(parts) => parts,
        Err(reason) => return Err(TargetError::InvalidUrl(reason)),
    };
    let host = match &uri.host {
        Some(h) => h.clone(),
        None => return Err(TargetError::NoHost),
    };
    match selector.host_for(&host) {
        None => Err(TargetError::Unmanaged(host)),
        Some(def) => {
            let mut defs: Vec<HostDef> = Vec::new();
            defs.push(def.clone());
            assert(selector::def_views(defs@) =~= seq![def@]);
            Ok(Targets { defs, uri: Some(uri) })
        },
    }
}

/// Endpoint groups to test. A URL selects the single group that owns its host
/// (`http://assets1.xboxlive.cn/Z/XXXX` selects xbox-assets).
pub fn target_defs(selector: &Selector, url_override: Option<&str>) -> (r: Result<
    Targets,
    TargetError,
>)
    ensures
        targeting_view(r) == targets(selector@, text::opt_str(url_override)),
{
    match url_override {
        None => Ok(Targets { defs: selector.defs(), uri: None }),
        Some(raw) => target_for(selector, uri::parse_uri(raw)),
    }
}

/// One candidate to measure: the group it belongs to, its address, the URL to fetch
/// and the host to ask for.
#[derive(Debug, Clone)]
pub struct Task {
    pub name: String,
    pub ip: Ip,
    pub url: String,
    pub host: String,
}

#[verifier::ext_equal]
pub struct TaskView {
    pub name: Seq<char>,
    pub ip: Ip,
    pub url: Seq<char>,
    pub host: Seq<char>,
}

impl View for Task {
    type V = TaskView;

    open spec fn view(&self) -> TaskView {
        TaskView { name: self.name@, ip: self.ip, url: self.url@, host: self.host@ }
    }
}

pub open spec fn task_views(tasks: Seq<Task>) -> Seq<TaskView> {
    tasks.map_values(|t: Task| t@)
}

/// The candidates of a group, each to be measured with the URL; none where it is no
/// URL.
pub open spec fn group_tasks(
    def: HostDefView,
    url: Seq<char>,
    parsed: Result<UriView, Seq<char>>,
) -> Seq<TaskView> {
    match parsed {
        Err(_) => Seq::empty(),
        Ok(uri) => Seq::new(
            def.ips.len(),
            |i: int|
                TaskView { name: def.name, ip: def.ips[i], url, host: uri::host_or_empty(uri) },
        ),
    }
}

/// The candidates of a group, to be measured with the URL that was given, or else with
/// the group's own.
pub open spec fn tasks_of(def: HostDefView, url_override: Option<(Seq<char>, UriView)>) -> Seq<
    TaskView,
> {
    match url_override {
        Some((raw, uri)) => group_tasks(def, raw, Ok(uri)),
        None => group_tasks(def, def.test_url, uri::uri_parse(def.test_url)),
    }
}

/// The candidates of several groups, in order.
pub open spec fn tasks_of_all(
    defs: Seq<HostDefView>,
    url_override: Option<(Seq<char>, UriView)>,
) -> Seq<TaskView>
    decreases defs.len(),
{
    if defs.len() == 0 {
        Seq::empty()
    } else {
        tasks_of_all(defs.drop_last(), url_override) + tasks_of(defs.last(), url_override)
    }
}

/// The URL that was given, and what it is.
pub open spec fn override_of(url_override: Option<Seq<char>>, uri: Option<UriView>) -> Option<
    (Seq<char>, UriView),
> {
    match (url_override, uri) {
        (Some(raw), Some(u)) => Some((raw, u)),
        _ => None,
    }
}

/// What a pass measures.
pub open spec fn pass_tasks(sel: SelectorView, url_override: Option<Seq<char>>) -> Result<
    Seq<TaskView>,
    TargetErrorView,
> {
    match targets(sel, url_override) {
        Err(e) => Err(e),
        Ok(t) => Ok(tasks_of_all(t.defs, override_of(url_override, t.uri))),
    }
}

/// Adds the candidates of a group, given what the URL was parsed to.
pub fn add_group_tasks(
    tasks: &mut Vec<Task>,
    def: &HostDef,
    url: &str,
    parsed: &Result<UriParts, String>,
)
    ensures
        task_views(final(tasks)@) == task_views(old(tasks)@) + group_tasks(
            def@,
            url@,
            uri::parsed_view(*parsed),
        ),
{
    let ghost wanted = group_tasks(def@, url@, uri::parsed_view(*parsed));
    match parsed {
        Err(_) => {
            assert(task_views(tasks@) + wanted =~= task_views(tasks@));
        },
        Ok(uri) => {
            let host = uri::host_text(uri);
            let mut i: usize = 0;
            assert(task_views(tasks@) =~= task_views(old(tasks)@) + wanted.take(0));
            while i < def.ips.len()
                invariant
                    i <= def.ips.len(),
                    wanted == group_tasks(def@, url@, uri::parsed_view(*parsed)),
                    *parsed == Ok::<UriParts, String>(*uri),
                    host@ == uri::host_or_empty(uri@),
                    task_views(tasks@) == task_views(old(tasks)@) + wanted.take(i as int),
                decreases def.ips.len() - i,
            {
                let ghost before = tasks@;
                let task = Task {
                    name: def.name.clone(),
                    ip: def.ips[i],
                    url: url.to_owned(),
                    host: host.clone(),
                };
                tasks.push(task);
                assert(task_views(tasks@) =~= task_views(before).push(task@));
                assert(wanted.take(i + 1) =~= wanted.take(i as int).push(wanted[i as int]));
                assert(task_views(tasks@) =~= task_views(old(tasks)@) + wanted.take(i + 1));
                i += 1;
            }
            assert(wanted.take(i as int) =~= wanted);
        },
    }
}

/// Plans a pass over all groups, or over the one that owns the host of a URL. A group
/// whose own test URL is none is passed over.
pub fn plan_pass(selector: &Selector, url_override: Option<&str>) -> (r: Result<
    Vec<Task>,
    TargetError,
>)
    ensures
        match r {
            Ok(tasks) => pass_tasks(selector@, text::opt_str(url_override)) == Ok::<
                Seq<TaskView>,
                TargetErrorView,
            >(task_views(tasks@)),
            Err(e) => pass_tasks(selector@, text::opt_str(url_override)) == Err::<
                Seq<TaskView>,
                TargetErrorView,
            >(e@),
        },
{
    let found = match target_defs(selector, url_override) {
        Ok(t) => t,
        Err(e) => return Err(e),
    };
    let ghost given = override_of(text::opt_str(url_override), found@.uri);
    let given_uri = match found.uri {
        Some(uri) => Some(Ok(uri)),
        None => None,
    };
    let defs = found.defs;
    let ghost all = selector::def_views(defs@);
    let mut tasks: Vec<Task> = Vec::new();
    assert(task_views(tasks@) =~= tasks_of_all(all.take(0), given));
    let mut i: usize = 0;
    while i < defs.len()
        invariant
            i <= defs.len(),
            all == selector::def_views(defs@),
            url_override is Some <==> given_uri is Some,
            given_uri is Some ==> given_uri->0 is Ok,
            given == match (url_override, given_uri) {
                (Some(raw), Some(Ok(uri))) => Some((raw@, uri@)),
                _ => None,
            },
            task_views(tasks@) == tasks_of_all(all.take(i as int), given),
        decreases defs.len() - i,
    {
        let def = &defs[i];
        proof {
            assert(all[i as int] == def@);
            assert(all.take(i + 1).drop_last() =~= all.take(i as int));
        }
        match (url_override, &given_uri) {
            (Some(raw), Some(parsed)) => add_group_tasks(&mut tasks, def, raw, parsed),
            _ => {
                let parsed = uri::parse_uri(&def.test_url);
                add_group_tasks(&mut tasks, def, &def.test_url, &parsed);
            },
        }
        i += 1;
    }
    assert(all.take(i as int) =~= all);
    Ok(tasks)
}

// ---------------------------------------------------------------------------
// Waves
// ---------------------------------------------------------------------------

/// A pass on its way: candidates are measured in waves, no more than `width` of them at
/// a time.
#[verifier::ext_equal]
pub struct PassView {
    pub tasks: Seq<TaskView>,
    pub next: int,
    pub width: int,
    pub forced: bool,
}

impl PassView {
    /// Where the wave that starts at `next` ends.
    pub open spec fn wave_end(self) -> int {
        if self.tasks.len() - self.next <= self.width {
            self.tasks.len() as int
        } else {
            self.next + self.width
        }
    }

    /// The next wave, by the numbers of its first task and of the task after its last
    /// one. There is none when all is measured, nor, unless the pass is forced, while
    /// the proxy is busy.
    pub open spec fn wave(self, busy: bool) -> Option<(int, int)> {
        if self.next >= self.tasks.len() || (!self.forced && busy) {
            None
        } else {
            Some((self.next, self.wave_end()))
        }
    }

    /// The pass once its next wave was given out. One that was broken off stays so.
    pub open spec fn after_wave(self, busy: bool) -> PassView {
        PassView {
            next: match self.wave(busy) {
                Some(w) => w.1,
                None => self.tasks.len() as int,
            },
            ..self
        }
    }
}

#[derive(Debug)]
pub struct Pass {
    tasks: Vec<Task>,
    next: usize,
    width: usize,
    forced: bool,
}

impl View for Pass {
    type V = PassView;

    closed spec fn view(&self) -> PassView {
        PassView {
            tasks: task_views(self.tasks@),
            next: self.next as int,
            width: self.width as int,
            forced: self.forced,
        }
    }
}

/// How many measurements run at a time.
pub open spec fn wave_width(cfg: SpeedTestConfig) -> int {
    if cfg.max_concurrency == 0 {
        1
    } else {
        cfg.max_concurrency as int
    }
}

/// A wave, if any.
pub open spec fn wave_view(r: Option<(usize, usize)>) -> Option<(int, int)> {
    match r {
        Some((from, to)) => Some((from as int, to as int)),
        None => None,
    }
}

impl Pass {
    pub closed spec fn wf(&self) -> bool {
        self.next <= self.tasks.len() && self.width >= 1
    }

    pub fn new(cfg: &SpeedTestConfig, tasks: Vec<Task>, forced: bool) -> (r: Pass)
        ensures
            r.wf(),
            r@ == (PassView {
                tasks: task_views(tasks@),
                next: 0,
                width: wave_width(*cfg),
                forced,
            }),
    {
        let width: usize = if cfg.max_concurrency == 0 {
            1
        } else {
            cfg.max_concurrency
        };
        Pass { tasks, next: 0, width, forced }
    }

    /// The tasks of the pass.
    pub fn tasks(&self) -> (r: &Vec<Task>)
        ensures
            task_views(r@) == self@.tasks,
    {
        &self.tasks
    }

    /// The tasks to run next, all at a time, as a range of `tasks`. Without one the
    /// pass is over: if a download starts in the midst of it, the rest is not measured,
    /// so that the download is not starved.
    pub fn next_wave_at(&mut self, metrics: &MetricsStore, now: u128) -> (r: Option<(usize, usize)>)
        requires
            old(self).wf(),
        ensures
            final(self).wf(),
            wave_view(r) == old(self)@.wave(metrics@.busy(ACTIVITY_GRACE_NANOS as int, now)),
            final(self)@ == old(self)@.after_wave(metrics@.busy(ACTIVITY_GRACE_NANOS as int, now)),
    {
        let len: usize = self.tasks.len();
        if self.next >= len || (!self.forced && metrics.is_busy_at(ACTIVITY_GRACE_NANOS, now)) {
            self.next = len;
            return None;
        }
        let from: usize = self.next;
        let to: usize = if len - from <= self.width {
            len
        } else {
            from + self.width
        };
        self.next = to;
        Some((from, to))
    }
}

// ---------------------------------------------------------------------------
// Measuring
// ---------------------------------------------------------------------------

/// The size of the files that are fetched for a test.
pub const TEST_FILE_BYTES: u64 = 31_457_280;

/// How much of a file is fetched.
pub open spec fn chunk_bytes(cfg: SpeedTestConfig) -> u64 {
    if cfg.test_chunk_bytes < 1 {
        1
    } else if cfg.test_chunk_bytes > TEST_FILE_BYTES {
        TEST_FILE_BYTES
    } else {
        cfg.test_chunk_bytes
    }
}

pub fn chunk_size(cfg: &SpeedTestConfig) -> (r: u64)
    ensures
        r == chunk_bytes(*cfg),
{
    if cfg.test_chunk_bytes < 1 {
        1
    } else if cfg.test_chunk_bytes > TEST_FILE_BYTES {
        TEST_FILE_BYTES
    } else {
        cfg.test_chunk_bytes
    }
}

/// The first byte of the part of a file that is fetched, for a number that was drawn.
pub open spec fn range_start(cfg: SpeedTestConfig, draw: u64) -> int {
    (draw as int) % (TEST_FILE_BYTES - chunk_bytes(cfg) + 1)
}

/// The header value that asks for that part.
pub open spec fn range_value(cfg: SpeedTestConfig, draw: u64) -> Seq<char> {
    let from = range_start(cfg, draw);
    "bytes="@ + text::decimal(from as nat) + "-"@ + text::decimal(
        (from + chunk_bytes(cfg) - 1) as nat,
    )
}

pub fn range_header(cfg: &SpeedTestConfig, draw: u64) -> (r: String)
    ensures
        r@ == range_value(*cfg, draw),
{
    let chunk: u64 = chunk_size(cfg);
    let from: u64 = draw % (TEST_FILE_BYTES - chunk + 1);
    let to: u64 = from + chunk - 1;
    let first = text::joined("bytes=", &text::to_decimal(from));
    text::joined(&text::joined(&first, "-"), &text::to_decimal(to))
}

/// `rand::random::<u64>`: any number, of which nothing is said.
#[verifier::external_body]
fn random_u64() -> (draw: u64) {
    rand::random::<u64>()
}

/// The request asks for a part of the file at some place.
pub open spec fn some_range(value: Seq<char>, cfg: SpeedTestConfig) -> bool {
    exists|draw: u64| value == range_value(cfg, draw)
}

/// The header value that asks for a part of the file at a random place.
pub fn random_range_header(cfg: &SpeedTestConfig) -> (r: String)
    ensures
        some_range(r@, *cfg),
{
    let draw = random_u64();
    range_header(cfg, draw)
}

/// What test requests call the program that makes them.
pub const USER_AGENT: &'static str = "xboxproxy/0.1.0";

/// How long a test may take until response headers are there. A server that accepts
/// connections and never answers would otherwise hold up the whole pass.
pub fn request_timeout_ms(cfg: &SpeedTestConfig) -> (r: u64)
    requires
        cfg.connect_timeout_ms + cfg.read_timeout_ms <= u64::MAX,
    ensures
        r == cfg.connect_timeout_ms + cfg.read_timeout_ms,
{
    cfg.connect_timeout_ms + cfg.read_timeout_ms
}

/// Nanoseconds that the body may take.
pub open spec fn read_timeout_nanos(cfg: SpeedTestConfig) -> int {
    cfg.read_timeout_ms * 1_000_000
}

/// The body of a test reply as it comes in: how much is wanted, and how much is there.
#[derive(Debug, Clone, Copy, PartialEq, Eq, Structural)]
pub struct Download {
    pub wanted: u64,
    pub bytes: u64,
}

impl Download {
    /// One more piece of the body; nothing beyond the part that was asked for counts.
    pub open spec fn with_piece(self, len: u64) -> Download {
        Download {
            bytes: if self.bytes + len > self.wanted {
                self.wanted
            } else {
                (self.bytes + len) as u64
            },
            ..self
        }
    }

    pub fn new(cfg: &SpeedTestConfig) -> (r: Download)
        ensures
            r == (Download { wanted: chunk_bytes(*cfg), bytes: 0 }),
    {
        Download { wanted: chunk_size(cfg), bytes: 0 }
    }

    /// How long to wait for the next piece, `elapsed_nanos` after the start; `None` when
    /// all is there or the time is up.
    pub fn patience_nanos(&self, cfg: &SpeedTestConfig, elapsed_nanos: u128) -> (r: Option<u128>)
        ensures
            match r {
                Some(n) => self.bytes < self.wanted && n > 0 && n == read_timeout_nanos(*cfg)
                    - elapsed_nanos,
                None => self.bytes >= self.wanted || elapsed_nanos >= read_timeout_nanos(*cfg),
            },
    {
        let limit: u128 = cfg.read_timeout_ms as u128 * 1_000_000;
        if self.bytes >= self.wanted || elapsed_nanos >= limit {
            None
        } else {
            Some(limit - elapsed_nanos)
        }
    }

    pub fn receive(&mut self, len: u64)
        ensures
            *final(self) == old(self).with_piece(len),
    {
        let sum: u64 = self.bytes.saturating_add(len);
        self.bytes = if sum > self.wanted {
            self.wanted
        } else {
            sum
        };
    }
}

/// What came of a test request.
#[derive(Debug, Clone, Copy, PartialEq, Eq, Structural)]
pub enum Probe {
    /// No response headers came, or not in time.
    NoAnswer,
    /// The server answered with a status other than success.
    Rejected { latency_ms: u64 },
    /// So much of the body came in that time.
    Body { latency_ms: u64, bytes: u64, nanos: u128 },
}

/// What is learnt of a candidate.
#[derive(Debug, Clone, Copy, PartialEq, Eq, Structural)]
pub struct MeasureResult {
    pub latency_ms: Option<u64>,
    pub speed_mkbps: Option<u64>,
    pub success: bool,
}

/// The status says that the body is what was asked for.
pub open spec fn status_is_success(status: u16) -> bool {
    200 <= status < 300
}

pub fn is_success(status: u16) -> (r: bool)
    ensures
        r == status_is_success(status),
{
    200 <= status && status < 300
}

/// A candidate is usable as soon as any data came: transfers that are throttled or
/// dropped midway still count, by their speed.
pub open spec fn judged(probe: Probe) -> MeasureResult {
    match probe {
        Probe::NoAnswer => MeasureResult { latency_ms: None, speed_mkbps: None, success: false },
        Probe::Rejected { latency_ms } => MeasureResult {
            latency_ms: Some(latency_ms),
            speed_mkbps: None,
            success: false,
        },
        Probe::Body { latency_ms, bytes, nanos } => MeasureResult {
            latency_ms: Some(latency_ms),
            speed_mkbps: Some(record::rate_mkbps(bytes, nanos)),
            success: bytes > 0,
        },
    }
}

pub fn judge(probe: Probe) -> (r: MeasureResult)
    ensures
        r == judged(probe),
{
    match probe {
        Probe::NoAnswer => MeasureResult { latency_ms: None, speed_mkbps: None, success: false },
        Probe::Rejected { latency_ms } => MeasureResult {
            latency_ms: Some(latency_ms),
            speed_mkbps: None,
            success: false,
        },
        Probe::Body { latency_ms, bytes, nanos } => MeasureResult {
            latency_ms: Some(latency_ms),
            speed_mkbps: Some(record::throughput_mkbps(bytes, nanos)),
            success: bytes > 0,
        },
    }
}

/// Hands the selector what was learnt of a candidate at `now`, and gives the record of
/// it. `ip` is the candidate's address as text.
pub fn apply_result_at(
    selector: &mut Selector,
    task: &Task,
    ip: String,
    result: MeasureResult,
    now: u64,
) -> (r: SpeedTestRecord)
    ensures
        final(selector)@ == old(selector)@.updated(
            task.name@,
            task.ip,
            result.latency_ms,
            result.speed_mkbps,
            result.success,
            now,
        ),
        r@ == (db::SpeedTestRecordView {
            ts: now as i64,
            host: task.name@,
            ip: ip@,
            latency_ms: result.latency_ms,
            speed_mkbps: result.speed_mkbps,
            success: result.success,
        }),
{
    selector.update_result_at(
        &task.name,
        task.ip,
        result.latency_ms,
        result.speed_mkbps,
        result.success,
        now,
    );
    SpeedTestRecord {
        ts: now as i64,
        host: task.name.clone(),
        ip,
        latency_ms: result.latency_ms,
        speed_mkbps: result.speed_mkbps,
        success: result.success,
    }
}

// ---------------------------------------------------------------------------
// What holds of every pass
// ---------------------------------------------------------------------------

/// The waves of a pass that meets no traffic, from its present place on.
pub open spec fn waves(pass: PassView) -> Seq<(int, int)>
    decreases pass.tasks.len() - pass.next,
{
    match pass.wave(false) {
        Some(w) => if w.1 > w.0 {
            seq![w] + waves(pass.after_wave(false))
        } else {
            seq![w]
        },
        None => Seq::empty(),
    }
}

/// The waves of a pass follow one another without gap or overlap from the first task to
/// the last, and none is empty or wider than allowed: each candidate is measured once.
pub proof fn waves_cover_every_task_once(pass: PassView)
    requires
        0 <= pass.next <= pass.tasks.len(),
        pass.width >= 1,
    ensures
        waves(pass).len() == 0 <==> pass.next == pass.tasks.len(),
        waves(pass).len() > 0 ==> waves(pass).first().0 == pass.next && waves(pass).last().1
            == pass.tasks.len(),
        forall|i: int|
            0 <= i < waves(pass).len() ==> 0 < (#[trigger] waves(pass)[i]).1 - waves(pass)[i].0
                <= pass.width,
        forall|i: int, j: int|
            0 <= i && j == i + 1 && j < waves(pass).len() ==> (#[trigger] waves(pass)[i]).1 == (
            #[trigger] waves(pass)[j]).0,
    decreases pass.tasks.len() - pass.next,
{
    if pass.next < pass.tasks.len() {
        let rest = pass.after_wave(false);
        waves_cover_every_task_once(rest);
        let w = (pass.next, pass.wave_end());
        assert(waves(pass) =~= seq![w] + waves(rest));
        assert forall|i: int| 0 <= i < waves(pass).len() implies 0 < (#[trigger] waves(pass)[i]).1
            - waves(pass)[i].0 <= pass.width by {
            if i > 0 {
                assert(waves(pass)[i] == waves(rest)[i - 1]);
            }
        }
        assert forall|i: int, j: int| 0 <= i && j == i + 1 && j < waves(pass).len() implies (
        #[trigger] waves(pass)[i]).1 == (#[trigger] waves(pass)[j]).0 by {
            assert(waves(pass)[j] == waves(rest)[j - 1]);
            if i > 0 {
                assert(waves(pass)[i] == waves(rest)[i - 1]);
            } else {
                assert(waves(rest)[0] == waves(rest).first());
            }
        }
    }
}

/// A forced pass goes on whatever the traffic, as one that meets none; any other is
/// broken off for good by traffic between two waves.
pub proof fn traffic_breaks_off_unforced_passes_only(pass: PassView, busy: bool)
    requires
        0 <= pass.next <= pass.tasks.len(),
    ensures
        pass.forced ==> pass.wave(busy) == pass.wave(false) && pass.after_wave(busy)
            == pass.after_wave(false),
        !pass.forced ==> pass.wave(true) is None && pass.after_wave(true).wave(busy) is None,
{
}

/// The part of a file that a test asks for lies within the file and is as long as the
/// settings say.
pub proof fn range_lies_within_the_file(cfg: SpeedTestConfig, draw: u64)
    ensures
        0 <= range_start(cfg, draw),
        range_start(cfg, draw) + chunk_bytes(cfg) <= TEST_FILE_BYTES,
        1 <= chunk_bytes(cfg) <= TEST_FILE_BYTES,
        1 <= cfg.test_chunk_bytes <= TEST_FILE_BYTES ==> chunk_bytes(cfg) == cfg.test_chunk_bytes,
{
}

/// A download never counts more than was asked for, and pieces only add to it.
pub proof fn downloads_grow_up_to_what_is_wanted(d: Download, len: u64)
    requires
        d.bytes <= d.wanted,
    ensures
        d.bytes <= d.with_piece(len).bytes <= d.wanted,
        d.with_piece(len).wanted == d.wanted,
        len > 0 && d.wanted > 0 ==> d.with_piece(len).bytes > 0,
{
}

/// Every measurement that succeeds says how fast and how near the candidate is.
pub proof fn success_comes_with_figures(probe: Probe)
    ensures
        judged(probe).success ==> judged(probe).latency_ms is Some && judged(probe).speed_mkbps
            is Some,
        judged(probe).success <==> probe is Body && probe->bytes > 0,
{
}

} // verus!
