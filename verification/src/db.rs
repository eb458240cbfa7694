//! What is kept in the database: the records, how they are written as rows and read
//! back, and the statements that store and query them.
use vstd::prelude::*;

use crate::text;

verus! {

broadcast use vstd::string::group_string_axioms;

/// One proxied request. `throughput_mkbps` is in thousandths of a kilobit per second.
#[derive(Debug, Clone)]
pub struct RequestRecord {
    pub ts: i64,
    pub client_ip: String,
    pub host: String,
    pub path: String,
    pub method: String,
    pub status: u16,
    pub bytes: u64,
    pub duration_ms: u64,
    pub ttfb_ms: u64,
    pub throughput_mkbps: u64,
    pub upstream_ip: Option<String>,
    pub passthrough: bool,
    pub error: Option<String>,
}

#[verifier::ext_equal]
pub struct RequestRecordView {
    pub ts: i64,
    pub client_ip: Seq<char>,
    pub host: Seq<char>,
    pub path: Seq<char>,
    pub method: Seq<char>,
    pub status: u16,
    pub bytes: u64,
    pub duration_ms: u64,
    pub ttfb_ms: u64,
    pub throughput_mkbps: u64,
    pub upstream_ip: Option<Seq<char>>,
    pub passthrough: bool,
    pub error: Option<Seq<char>>,
}

impl View for RequestRecord {
    type V = RequestRecordView;

    open spec fn view(&self) -> RequestRecordView {
        RequestRecordView {
            ts: self.ts,
            client_ip: self.client_ip@,
            host: self.host@,
            path: self.path@,
            method: self.method@,
            status: self.status,
            bytes: self.bytes,
            duration_ms: self.duration_ms,
            ttfb_ms: self.ttfb_ms,
            throughput_mkbps: self.throughput_mkbps,
            upstream_ip: text::opt_text(self.upstream_ip),
            passthrough: self.passthrough,
            error: text::opt_text(self.error),
        }
    }
}

/// One measurement of a candidate. `speed_mkbps` is in thousandths of a kilobit per
/// second.
#[derive(Debug, Clone)]
pub struct SpeedTestRecord {
    pub ts: i64,
    pub host: String,
    pub ip: String,
    pub latency_ms: Option<u64>,
    pub speed_mkbps: Option<u64>,
    pub success: bool,
}

#[verifier::ext_equal]
pub struct SpeedTestRecordView {
    pub ts: i64,
    pub host: Seq<char>,
    pub ip: Seq<char>,
    pub latency_ms: Option<u64>,
    pub speed_mkbps: Option<u64>,
    pub success: bool,
}

impl View for SpeedTestRecord {
    type V = SpeedTestRecordView;

    open spec fn view(&self) -> SpeedTestRecordView {
        SpeedTestRecordView {
            ts: self.ts,
            host: self.host@,
            ip: self.ip@,
            latency_ms: self.latency_ms,
            speed_mkbps: self.speed_mkbps,
            success: self.success,
        }
    }
}

/// What the writer is asked to do.
#[derive(Debug, Clone)]
pub enum DbCommand {
    InsertRequest(RequestRecord),
    InsertSpeedTest(SpeedTestRecord),
    /// Forget everything from before this time.
    Cleanup(i64),
}

#[verifier::ext_equal]
pub enum DbCommandView {
    InsertRequest(RequestRecordView),
    InsertSpeedTest(SpeedTestRecordView),
    Cleanup(i64),
}

impl View for DbCommand {
    type V = DbCommandView;

    open spec fn view(&self) -> DbCommandView {
        match *self {
            DbCommand::InsertRequest(r) => DbCommandView::InsertRequest(r@),
            DbCommand::InsertSpeedTest(s) => DbCommandView::InsertSpeedTest(s@),
            DbCommand::Cleanup(cutoff) => DbCommandView::Cleanup(cutoff),
        }
    }
}

/// How many requests were answered with a status.
#[derive(Debug, Clone, Copy, PartialEq, Eq)]
pub struct StatusCount {
    pub status: i64,
    pub count: i64,
}

/// A row of the table `requests`, whose columns hold 64-bit signed integers, texts
/// and, for the throughput, a real number.
#[derive(Debug, Clone)]
pub struct RequestRow {
    pub ts: i64,
    pub client_ip: String,
    pub host: String,
    pub path: String,
    pub method: String,
    pub status: i64,
    pub bytes: i64,
    pub duration_ms: i64,
    pub ttfb_ms: i64,
    pub throughput_mkbps: u64,
    pub upstream_ip: Option<String>,
    pub passthrough: i64,
    pub error: Option<String>,
}

#[verifier::ext_equal]
pub struct RequestRowView {
    pub ts: i64,
    pub client_ip: Seq<char>,
    pub host: Seq<char>,
    pub path: Seq<char>,
    pub method: Seq<char>,
    pub status: i64,
    pub bytes: i64,
    pub duration_ms: i64,
    pub ttfb_ms: i64,
    pub throughput_mkbps: u64,
    pub upstream_ip: Option<Seq<char>>,
    pub passthrough: i64,
    pub error: Option<Seq<char>>,
}

impl View for RequestRow {
    type V = RequestRowView;

    open spec fn view(&self) -> RequestRowView {
        RequestRowView {
            ts: self.ts,
            client_ip: self.client_ip@,
            host: self.host@,
            path: self.path@,
            method: self.method@,
            status: self.status,
            bytes: self.bytes,
            duration_ms: self.duration_ms,
            ttfb_ms: self.ttfb_ms,
            throughput_mkbps: self.throughput_mkbps,
            upstream_ip: text::opt_text(self.upstream_ip),
            passthrough: self.passthrough,
            error: text::opt_text(self.error),
        }
    }
}

/// A row of the table `speedtests`.
#[derive(Debug, Clone)]
pub struct SpeedTestRow {
    pub ts: i64,
    pub host: String,
    pub ip: String,
    pub latency_ms: Option<i64>,
    pub speed_mkbps: Option<u64>,
    pub success: i64,
}

#[verifier::ext_equal]
pub struct SpeedTestRowView {
    pub ts: i64,
    pub host: Seq<char>,
    pub ip: Seq<char>,
    pub latency_ms: Option<i64>,
    pub speed_mkbps: Option<u64>,
    pub success: i64,
}

impl View for SpeedTestRow {
    type V = SpeedTestRowView;

    open spec fn view(&self) -> SpeedTestRowView {
        SpeedTestRowView {
            ts: self.ts,
            host: self.host@,
            ip: self.ip@,
            latency_ms: self.latency_ms,
            speed_mkbps: self.speed_mkbps,
            success: self.success,
        }
    }
}

/// The integer that a truth value is stored as.
pub open spec fn flag(b: bool) -> i64 {
    if b {
        1
    } else {
        0
    }
}

/// The row that a request is stored as: counts keep their 64 bits, read as a signed
/// number.
pub open spec fn request_row(r: RequestRecordView) -> RequestRowView {
    RequestRowView {
        ts: r.ts,
        client_ip: r.client_ip,
        host: r.host,
        path: r.path,
        method: r.method,
        status: r.status as i64,
        bytes: r.bytes as i64,
        duration_ms: r.duration_ms as i64,
        ttfb_ms: r.ttfb_ms as i64,
        throughput_mkbps: r.throughput_mkbps,
        upstream_ip: r.upstream_ip,
        passthrough: flag(r.passthrough),
        error: r.error,
    }
}

/// The request that a row stands for.
pub open spec fn request_of_row(row: RequestRowView) -> RequestRecordView {
    RequestRecordView {
        ts: row.ts,
        client_ip: row.client_ip,
        host: row.host,
        path: row.path,
        method: row.method,
        status: row.status as u16,
        bytes: row.bytes as u64,
        duration_ms: row.duration_ms as u64,
        ttfb_ms: row.ttfb_ms as u64,
        throughput_mkbps: row.throughput_mkbps,
        upstream_ip: row.upstream_ip,
        passthrough: row.passthrough != 0,
        error: row.error,
    }
}

/// The row that a measurement is stored as.
pub open spec fn speedtest_row(s: SpeedTestRecordView) -> SpeedTestRowView {
    SpeedTestRowView {
        ts: s.ts,
        host: s.host,
        ip: s.ip,
        latency_ms: match s.latency_ms {
            Some(n) => Some(n as i64),
            None => None,
        },
        speed_mkbps: s.speed_mkbps,
        success: flag(s.success),
    }
}

/// The measurement that a row stands for.
pub open spec fn speedtest_of_row(row: SpeedTestRowView) -> SpeedTestRecordView {
    SpeedTestRecordView {
        ts: row.ts,
        host: row.host,
        ip: row.ip,
        latency_ms: match row.latency_ms {
            Some(n) => Some(n as u64),
            None => None,
        },
        speed_mkbps: row.speed_mkbps,
        success: row.success != 0,
    }
}

fn to_flag(b: bool) -> (r: i64)
    ensures
        r == flag(b),
{
    if b {
        1
    } else {
        0
    }
}

pub fn row_from_request(r: RequestRecord) -> (row: RequestRow)
    ensures
        row@ == request_row(r@),
{
    RequestRow {
        ts: r.ts,
        client_ip: r.client_ip,
        host: r.host,
        path: r.path,
        method: r.method,
        status: r.status as i64,
        bytes: r.bytes as i64,
        duration_ms: r.duration_ms as i64,
        ttfb_ms: r.ttfb_ms as i64,
        throughput_mkbps: r.throughput_mkbps,
        upstream_ip: r.upstream_ip,
        passthrough: to_flag(r.passthrough),
        error: r.error,
    }
}

pub fn row_to_request(row: RequestRow) -> (r: RequestRecord)
    ensures
        r@ == request_of_row(row@),
{
    RequestRecord {
        ts: row.ts,
        client_ip: row.client_ip,
        host: row.host,
        path: row.path,
        method: row.method,
        status: row.status as u16,
        bytes: row.bytes as u64,
        duration_ms: row.duration_ms as u64,
        ttfb_ms: row.ttfb_ms as u64,
        throughput_mkbps: row.throughput_mkbps,
        upstream_ip: row.upstream_ip,
        passthrough: row.passthrough != 0,
        error: row.error,
    }
}

pub fn row_from_speedtest(s: SpeedTestRecord) -> (row: SpeedTestRow)
    ensures
        row@ == speedtest_row(s@),
{
    SpeedTestRow {
        ts: s.ts,
        host: s.host,
        ip: s.ip,
        latency_ms: match s.latency_ms {
            Some(n) => Some(n as i64),
            None => None,
        },
        speed_mkbps: s.speed_mkbps,
        success: to_flag(s.success),
    }
}

pub fn row_to_speedtest(row: SpeedTestRow) -> (s: SpeedTestRecord)
    ensures
        s@ == speedtest_of_row(row@),
{
    SpeedTestRecord {
        ts: row.ts,
        host: row.host,
        ip: row.ip,
        latency_ms: match row.latency_ms {
            Some(n) => Some(n as u64),
            None => None,
        },
        speed_mkbps: row.speed_mkbps,
        success: row.success != 0,
    }
}

/// One change of the database.
#[derive(Debug, Clone)]
pub enum Write {
    Request(RequestRow),
    SpeedTest(SpeedTestRow),
    /// Delete the requests from before a time.
    OldRequests(i64),
    /// Delete the measurements from before a time.
    OldSpeedTests(i64),
}

#[verifier::ext_equal]
pub enum WriteView {
    Request(RequestRowView),
    SpeedTest(SpeedTestRowView),
    OldRequests(i64),
    OldSpeedTests(i64),
}

impl View for Write {
    type V = WriteView;

    open spec fn view(&self) -> WriteView {
        match *self {
            Write::Request(row) => WriteView::Request(row@),
            Write::SpeedTest(row) => WriteView::SpeedTest(row@),
            Write::OldRequests(cutoff) => WriteView::OldRequests(cutoff),
            Write::OldSpeedTests(cutoff) => WriteView::OldSpeedTests(cutoff),
        }
    }
}

/// The changes that carry out a command, in order.
pub open spec fn command_writes(cmd: DbCommandView) -> Seq<WriteView> {
    match cmd {
        DbCommandView::InsertRequest(r) => seq![WriteView::Request(request_row(r))],
        DbCommandView::InsertSpeedTest(s) => seq![WriteView::SpeedTest(speedtest_row(s))],
        DbCommandView::Cleanup(cutoff) => seq![
            WriteView::OldRequests(cutoff),
            WriteView::OldSpeedTests(cutoff),
        ],
    }
}

pub open spec fn write_views(v: Seq<Write>) -> Seq<WriteView> {
    v.map_values(|w: Write| w@)
}

pub fn writes_for(cmd: DbCommand) -> (r: Vec<Write>)
    ensures
        write_views(r@) == command_writes(cmd@),
{
    let mut out: Vec<Write> = Vec::new();
    match cmd {
        DbCommand::InsertRequest(rec) => out.push(Write::Request(row_from_request(rec))),
        DbCommand::InsertSpeedTest(rec) => out.push(Write::SpeedTest(row_from_speedtest(rec))),
        DbCommand::Cleanup(cutoff) => {
            out.push(Write::OldRequests(cutoff));
            out.push(Write::OldSpeedTests(cutoff));
        },
    }
    assert(write_views(out@) =~= command_writes(cmd@));
    out
}

/// How many days records are kept.
pub const RETENTION_DAYS: i64 = 7;

/// The command that forgets, at `now`, what is older than records are kept.
pub fn cleanup_at(now: u64) -> (cmd: DbCommand)
    requires
        now as i64 - RETENTION_DAYS * 86_400 >= i64::MIN,
    ensures
        cmd@ == DbCommandView::Cleanup((now as i64 - RETENTION_DAYS * 86_400) as i64),
{
    DbCommand::Cleanup(now as i64 - RETENTION_DAYS * 86_400)
}

/// A query: its text and the values of its numbered parameters.
#[derive(Debug, Clone)]
pub struct RowQuery {
    pub sql: &'static str,
    pub args: Vec<i64>,
}

pub const INSERT_REQUEST: &'static str =
    "INSERT INTO requests (ts, client_ip, host, path, method, status, bytes, duration_ms, ttfb_ms, throughput_kbps, upstream_ip, passthrough, error) VALUES (?1, ?2, ?3, ?4, ?5, ?6, ?7, ?8, ?9, ?10, ?11, ?12, ?13)";

pub const INSERT_SPEEDTEST: &'static str =
    "INSERT INTO speedtests (ts, host, ip, latency_ms, speed_kbps, success) VALUES (?1, ?2, ?3, ?4, ?5, ?6)";

pub const DELETE_REQUESTS: &'static str = "DELETE FROM requests WHERE ts < ?1";

pub const DELETE_SPEEDTESTS: &'static str = "DELETE FROM speedtests WHERE ts < ?1";

/// The statement that makes a change.
pub open spec fn write_statement(w: WriteView) -> Seq<char> {
    match w {
        WriteView::Request(_) => INSERT_REQUEST@,
        WriteView::SpeedTest(_) => INSERT_SPEEDTEST@,
        WriteView::OldRequests(_) => DELETE_REQUESTS@,
        WriteView::OldSpeedTests(_) => DELETE_SPEEDTESTS@,
    }
}

impl Write {
    pub fn statement(&self) -> (sql: &'static str)
        ensures
            sql@ == write_statement(self@),
    {
        match self {
            Write::Request(_) => INSERT_REQUEST,
            Write::SpeedTest(_) => INSERT_SPEEDTEST,
            Write::OldRequests(_) => DELETE_REQUESTS,
            Write::OldSpeedTests(_) => DELETE_SPEEDTESTS,
        }
    }
}

/// The most rows that a listing returns.
pub const MAX_ROWS: i64 = 500;

/// A wished-for number of rows, kept between none and `MAX_ROWS`.
pub open spec fn row_limit(limit: i64) -> i64 {
    if limit < 0 {
        0
    } else if limit > MAX_ROWS {
        MAX_ROWS
    } else {
        limit
    }
}

fn clamp_rows(limit: i64) -> (r: i64)
    ensures
        r == row_limit(limit),
{
    if limit < 0 {
        0
    } else if limit > MAX_ROWS {
        MAX_ROWS
    } else {
        limit
    }
}

pub const SELECT_STATS: &'static str =
    "SELECT COUNT(*), COALESCE(AVG(throughput_kbps),0), COALESCE(AVG(ttfb_ms),0), COALESCE(SUM(CASE WHEN status >= 500 THEN 1 ELSE 0 END),0), COALESCE(SUM(bytes),0) FROM requests WHERE ts >= ?1";

pub const SELECT_SERIES: &'static str =
    "SELECT (ts / 60) * 60 AS bucket, COUNT(*), COALESCE(AVG(throughput_kbps),0), COALESCE(AVG(ttfb_ms),0), COALESCE(SUM(CASE WHEN status >= 500 THEN 1 ELSE 0 END),0) FROM requests WHERE ts >= ?1 GROUP BY bucket ORDER BY bucket";

pub const SELECT_STATUSES: &'static str =
    "SELECT status, COUNT(*) AS cnt FROM requests WHERE ts >= ?1 GROUP BY status ORDER BY cnt DESC";

pub const SELECT_REQUESTS: &'static str =
    "SELECT ts, client_ip, host, path, method, status, bytes, duration_ms, ttfb_ms, throughput_kbps, upstream_ip, passthrough, error FROM requests ORDER BY id DESC LIMIT ?1";

pub const SELECT_REQUESTS_SINCE: &'static str =
    "SELECT ts, client_ip, host, path, method, status, bytes, duration_ms, ttfb_ms, throughput_kbps, upstream_ip, passthrough, error FROM requests WHERE ts >= ?1 ORDER BY id DESC LIMIT ?2";

pub const SELECT_SPEEDTESTS: &'static str =
    "SELECT ts, host, ip, latency_ms, speed_kbps, success FROM speedtests ORDER BY id DESC LIMIT ?1";

/// Number, average throughput, average time to the first byte, server errors and
/// bytes of the requests since a time.
pub fn stats_since(since: i64) -> (q: RowQuery)
    ensures
        q.sql@ == SELECT_STATS@,
        q.args@ == seq![since],
{
    RowQuery { sql: SELECT_STATS, args: vec![since] }
}

/// The same figures but for the bytes, for each minute since a time.
pub fn series_since(since: i64) -> (q: RowQuery)
    ensures
        q.sql@ == SELECT_SERIES@,
        q.args@ == seq![since],
{
    RowQuery { sql: SELECT_SERIES, args: vec![since] }
}

/// How often each status was answered since a time, the most frequent first.
pub fn status_counts(since: i64) -> (q: RowQuery)
    ensures
        q.sql@ == SELECT_STATUSES@,
        q.args@ == seq![since],
{
    RowQuery { sql: SELECT_STATUSES, args: vec![since] }
}

/// The latest requests, of all time or since a time, the last one first.
pub fn recent_requests(limit: i64, since: Option<i64>) -> (q: RowQuery)
    ensures
        match since {
            Some(s) => q.sql@ == SELECT_REQUESTS_SINCE@ && q.args@ == seq![s, row_limit(limit)],
            None => q.sql@ == SELECT_REQUESTS@ && q.args@ == seq![row_limit(limit)],
        },
{
    let rows: i64 = clamp_rows(limit);
    match since {
        Some(s) => RowQuery { sql: SELECT_REQUESTS_SINCE, args: vec![s, rows] },
        None => RowQuery { sql: SELECT_REQUESTS, args: vec![rows] },
    }
}

/// The latest measurements, the last one first.
pub fn recent_speedtests(limit: i64) -> (q: RowQuery)
    ensures
        q.sql@ == SELECT_SPEEDTESTS@,
        q.args@ == seq![row_limit(limit)],
{
    RowQuery { sql: SELECT_SPEEDTESTS, args: vec![clamp_rows(limit)] }
}

proof fn lemma_signed_round_trip(n: u64)
    ensures
        (n as i64) as u64 == n,
{
    assert((n as i64) as u64 == n) by (bit_vector);
}

/// A request that was stored is read back as it was.
pub proof fn request_rows_round_trip(r: RequestRecordView)
    ensures
        request_of_row(request_row(r)) == r,
{
    lemma_signed_round_trip(r.bytes);
    lemma_signed_round_trip(r.duration_ms);
    lemma_signed_round_trip(r.ttfb_ms);
}

/// A measurement that was stored is read back as it was.
pub proof fn speedtest_rows_round_trip(s: SpeedTestRecordView)
    ensures
        speedtest_of_row(speedtest_row(s)) == s,
{
    match s.latency_ms {
        Some(n) => lemma_signed_round_trip(n),
        None => {},
    }
}

} // verus!
