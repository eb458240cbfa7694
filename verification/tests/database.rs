use xboxproxy::db::{
    cleanup_at, recent_requests, recent_speedtests, row_from_request, row_from_speedtest,
    row_to_request, row_to_speedtest, series_since, stats_since, status_counts, writes_for,
    DbCommand, RequestRecord, SpeedTestRecord, StatusCount, Write, DELETE_REQUESTS,
    DELETE_SPEEDTESTS, INSERT_REQUEST, INSERT_SPEEDTEST, SELECT_REQUESTS, SELECT_REQUESTS_SINCE,
};

fn request() -> RequestRecord {
    RequestRecord {
        ts: 1_700_000_000,
        client_ip: "192.168.1.2".into(),
        host: "assets1.xboxlive.com".into(),
        path: "/a?b".into(),
        method: "GET".into(),
        status: 206,
        bytes: u64::MAX,
        duration_ms: 12,
        ttfb_ms: 3,
        throughput_mkbps: 45_678,
        upstream_ip: Some("1.1.1.1".into()),
        passthrough: true,
        error: Some("late".into()),
    }
}

#[test]
fn requests_survive_storage() {
    let row = row_from_request(request());
    assert_eq!(row.bytes, -1);
    assert_eq!(row.status, 206);
    assert_eq!(row.passthrough, 1);
    let back = row_to_request(row);
    assert_eq!(format!("{:?}", back), format!("{:?}", request()));
}

#[test]
fn odd_rows_are_read_in_the_width_of_their_field() {
    let mut row = row_from_request(request());
    row.status = 65_536 + 404;
    row.passthrough = 2;
    let back = row_to_request(row);
    assert_eq!(back.status, 404);
    assert!(back.passthrough);
}

#[test]
fn measurements_survive_storage() {
    for latency_ms in [None, Some(0), Some(u64::MAX)] {
        let s = SpeedTestRecord {
            ts: 5,
            host: "xbox-assets".into(),
            ip: "1.1.1.1".into(),
            latency_ms,
            speed_mkbps: Some(17),
            success: latency_ms.is_some(),
        };
        let shown = format!("{:?}", s);
        let row = row_from_speedtest(s);
        assert_eq!(row.success, if latency_ms.is_some() { 1 } else { 0 });
        assert_eq!(format!("{:?}", row_to_speedtest(row)), shown);
    }
}

#[test]
fn commands_become_statements() {
    let w = writes_for(DbCommand::InsertRequest(request()));
    assert_eq!(w.len(), 1);
    assert_eq!(w[0].statement(), INSERT_REQUEST);
    let w = writes_for(DbCommand::InsertSpeedTest(SpeedTestRecord {
        ts: 5,
        host: "h".into(),
        ip: "i".into(),
        latency_ms: None,
        speed_mkbps: None,
        success: false,
    }));
    assert_eq!(w.len(), 1);
    assert_eq!(w[0].statement(), INSERT_SPEEDTEST);
    let w = writes_for(DbCommand::Cleanup(99));
    assert_eq!(w.len(), 2);
    assert!(matches!(w[0], Write::OldRequests(99)));
    assert_eq!(w[0].statement(), DELETE_REQUESTS);
    assert!(matches!(w[1], Write::OldSpeedTests(99)));
    assert_eq!(w[1].statement(), DELETE_SPEEDTESTS);
}

#[test]
fn records_are_kept_for_seven_days() {
    assert!(matches!(cleanup_at(1_000_000), DbCommand::Cleanup(395_200)));
    assert!(matches!(cleanup_at(0), DbCommand::Cleanup(-604_800)));
}

#[test]
fn listings_are_limited() {
    let q = recent_requests(10_000, None);
    assert_eq!(q.sql, SELECT_REQUESTS);
    assert_eq!(q.args, vec![500]);
    let q = recent_requests(-3, Some(77));
    assert_eq!(q.sql, SELECT_REQUESTS_SINCE);
    assert_eq!(q.args, vec![77, 0]);
    assert_eq!(recent_speedtests(20).args, vec![20]);
    assert_eq!(stats_since(4).args, vec![4]);
    assert_eq!(series_since(5).args, vec![5]);
    assert_eq!(status_counts(6).args, vec![6]);
}

#[test]
fn statements_run_on_a_real_database() {
    let conn = rusqlite::Connection::open_in_memory().unwrap();
    conn.execute_batch(
        "CREATE TABLE requests (id INTEGER PRIMARY KEY AUTOINCREMENT, ts INTEGER, client_ip TEXT,
            host TEXT, path TEXT, method TEXT, status INTEGER, bytes INTEGER, duration_ms INTEGER,
            ttfb_ms INTEGER, throughput_kbps REAL, upstream_ip TEXT, passthrough INTEGER,
            error TEXT);
         CREATE TABLE speedtests (id INTEGER PRIMARY KEY AUTOINCREMENT, ts INTEGER, host TEXT,
            ip TEXT, latency_ms INTEGER, speed_kbps REAL, success INTEGER);",
    )
    .unwrap();
    for sql in [
        INSERT_REQUEST,
        INSERT_SPEEDTEST,
        DELETE_REQUESTS,
        DELETE_SPEEDTESTS,
        stats_since(0).sql,
        series_since(0).sql,
        status_counts(0).sql,
        SELECT_REQUESTS,
        SELECT_REQUESTS_SINCE,
        recent_speedtests(1).sql,
    ] {
        conn.prepare(sql).unwrap();
    }
    for (ts, status) in [(10_i64, 200_i64), (20, 502), (30, 502)] {
        conn.execute(
            "INSERT INTO requests (ts, status, bytes) VALUES (?1, ?2, 7)",
            [ts, status],
        )
        .unwrap();
    }
    let q = status_counts(0);
    let counts: Vec<StatusCount> = conn
        .prepare(q.sql)
        .unwrap()
        .query_map([q.args[0]], |r| {
            Ok(StatusCount { status: r.get(0)?, count: r.get(1)? })
        })
        .unwrap()
        .map(|r| r.unwrap())
        .collect();
    assert_eq!(
        counts,
        vec![
            StatusCount { status: 502, count: 2 },
            StatusCount { status: 200, count: 1 }
        ]
    );
    assert_eq!(conn.execute(DELETE_REQUESTS, [20_i64]).unwrap(), 1);
}
