use rs_port_forward::events::LogEvent;
use rs_port_forward::store::{row_from_event, ConnectionRow};
use rs_port_forward::traffic::{query_traffic_by_client, ClientTraffic, QueryError};

fn row(ts: i64, kind: &str, client: Option<&str>, from_to: u64, to_from: u64) -> ConnectionRow {
    ConnectionRow {
        ts,
        name: "web".to_string(),
        log_name: kind.to_string(),
        local_port: 8080,
        remote_address: "10.1.1.1".to_string(),
        remote_port: 80,
        client_addr: client.map(|c| c.to_string()),
        bytes_from_to: from_to,
        bytes_to_from: to_from,
    }
}

fn closed(ts: i64, client: Option<&str>, from_to: u64, to_from: u64) -> ConnectionRow {
    row(ts, "connection_closed", client, from_to, to_from)
}

fn plain(report: Vec<ClientTraffic>) -> Vec<(Option<String>, u64, u64)> {
    report.into_iter().map(|t| (t.client_addr, t.bytes_from_to, t.bytes_to_from)).collect()
}

fn entry(client: Option<&str>, from_to: u64, to_from: u64) -> (Option<String>, u64, u64) {
    (client.map(|c| c.to_string()), from_to, to_from)
}

#[test]
fn sums_the_rows_of_each_client() {
    let rows = vec![
        closed(10, Some("a"), 100, 1),
        closed(11, Some("b"), 5, 5),
        closed(12, Some("a"), 50, 2),
        closed(13, Some("b"), 1000, 0),
        closed(14, Some("a"), 0, 7),
    ];
    let report = query_traffic_by_client(&rows, 0, 100).unwrap();
    assert_eq!(plain(report), vec![entry(Some("b"), 1005, 5), entry(Some("a"), 150, 10)]);
}

#[test]
fn window_is_half_open() {
    let rows = vec![
        closed(9, Some("a"), 1, 0),
        closed(10, Some("a"), 10, 0),
        closed(19, Some("a"), 100, 0),
        closed(20, Some("a"), 1000, 0),
        closed(21, Some("b"), 7, 7),
    ];
    let report = query_traffic_by_client(&rows, 10, 20).unwrap();
    assert_eq!(plain(report), vec![entry(Some("a"), 110, 0)]);
}

#[test]
fn empty_window_gives_an_empty_report() {
    let rows = vec![closed(10, Some("a"), 1, 1), closed(11, Some("b"), 1, 1)];
    assert!(query_traffic_by_client(&rows, 10, 10).unwrap().is_empty());
    assert!(query_traffic_by_client(&rows, 11, 10).unwrap().is_empty());
    assert!(query_traffic_by_client(&rows, i64::MAX, i64::MIN).unwrap().is_empty());
}

#[test]
fn no_matching_rows_give_an_empty_report() {
    let rows = vec![closed(10, Some("a"), 1, 1)];
    assert!(query_traffic_by_client(&rows, 11, 1000).unwrap().is_empty());
    assert!(query_traffic_by_client(&[], i64::MIN, i64::MAX).unwrap().is_empty());
}

#[test]
fn rows_without_client_form_their_own_group() {
    let rows = vec![
        closed(1, None, 5, 5),
        closed(2, Some("a"), 1, 1),
        closed(3, None, 6, 6),
        closed(4, Some(""), 2, 2),
    ];
    let report = query_traffic_by_client(&rows, 0, 10).unwrap();
    assert_eq!(
        plain(report),
        vec![entry(None, 11, 11), entry(Some(""), 2, 2), entry(Some("a"), 1, 1)]
    );
}

#[test]
fn report_is_ordered_by_combined_bytes() {
    let rows = vec![
        closed(1, Some("small"), 1, 1),
        closed(1, Some("large"), 0, 900),
        closed(1, Some("middle"), 300, 300),
        closed(1, Some("zero"), 0, 0),
        closed(2, Some("small"), 1, 0),
    ];
    let report = query_traffic_by_client(&rows, 1, 3).unwrap();
    assert_eq!(
        plain(report),
        vec![
            entry(Some("large"), 0, 900),
            entry(Some("middle"), 300, 300),
            entry(Some("small"), 2, 1),
            entry(Some("zero"), 0, 0),
        ]
    );
}

#[test]
fn combined_bytes_beyond_u64_still_order_the_report() {
    let rows = vec![
        closed(1, Some("a"), u64::MAX, 0),
        closed(1, Some("b"), u64::MAX, 1),
        closed(1, Some("c"), 1, u64::MAX - 1),
    ];
    let report = query_traffic_by_client(&rows, 0, 2).unwrap();
    let clients: Vec<Option<String>> = report.iter().map(|t| t.client_addr.clone()).collect();
    assert_eq!(clients[0].as_deref(), Some("b"));
    assert_eq!(report[0].bytes_from_to, u64::MAX);
    assert_eq!(report[0].bytes_to_from, 1);
    assert_eq!(report.len(), 3);
}

#[test]
fn events_other_than_close_add_a_client_but_no_bytes() {
    let rows = vec![
        row(1, "connection_started", Some("a"), 0, 0),
        row(2, "connection_timeout", Some("a"), 0, 0),
        closed(3, Some("a"), 10, 20),
        row(4, "connection_error", Some("b"), 0, 0),
    ];
    let report = query_traffic_by_client(&rows, 0, 10).unwrap();
    assert_eq!(plain(report), vec![entry(Some("a"), 10, 20), entry(Some("b"), 0, 0)]);
}

#[test]
fn total_beyond_u64_is_an_error() {
    let rows = vec![
        closed(1, Some("a"), u64::MAX, 0),
        closed(2, Some("b"), 1, 1),
        closed(3, Some("a"), 1, 0),
    ];
    assert_eq!(query_traffic_by_client(&rows, 0, 10).err(), Some(QueryError::TotalTooLarge));
    let rows = vec![closed(1, None, 0, u64::MAX), closed(3, None, 0, 1)];
    assert_eq!(query_traffic_by_client(&rows, 0, 10).err(), Some(QueryError::TotalTooLarge));
}

#[test]
fn total_beyond_u64_outside_the_window_is_no_error() {
    let rows = vec![
        closed(1, Some("a"), u64::MAX, 0),
        closed(2, Some("b"), 1, 1),
        closed(30, Some("a"), 1, 0),
    ];
    let report = query_traffic_by_client(&rows, 0, 10).unwrap();
    assert_eq!(plain(report), vec![entry(Some("a"), u64::MAX, 0), entry(Some("b"), 1, 1)]);
}

#[test]
fn report_on_rows_made_from_events() {
    let events = vec![
        LogEvent::ConnectionStarted {
            ts: 100,
            name: "r".to_string(),
            local_port: 9000,
            remote_address: "127.0.0.1".to_string(),
            remote_port: 9100,
            client_addr: Some("10.0.0.7".to_string()),
        },
        LogEvent::ConnectionClosed {
            ts: 101,
            name: "r".to_string(),
            local_port: 9000,
            remote_address: "127.0.0.1".to_string(),
            remote_port: 9100,
            client_addr: Some("10.0.0.7".to_string()),
            bytes_from_to: 100,
            bytes_to_from: 100,
        },
        LogEvent::ConnectionError {
            ts: 102,
            name: "r".to_string(),
            local_port: 9000,
            remote_address: "127.0.0.1".to_string(),
            remote_port: 9100,
            client_addr: None,
            error: "accept failed".to_string(),
        },
    ];
    let rows: Vec<ConnectionRow> = events.into_iter().map(row_from_event).collect();
    let report = query_traffic_by_client(&rows, 100, 103).unwrap();
    assert_eq!(plain(report), vec![entry(Some("10.0.0.7"), 100, 100), entry(None, 0, 0)]);
}

#[test]
fn negative_times_are_ordinary_times() {
    let rows = vec![closed(-5, Some("a"), 1, 2), closed(i64::MIN, Some("b"), 3, 4)];
    let report = query_traffic_by_client(&rows, i64::MIN, 0).unwrap();
    assert_eq!(plain(report), vec![entry(Some("b"), 3, 4), entry(Some("a"), 1, 2)]);
    let report = query_traffic_by_client(&rows, i64::MIN + 1, 0).unwrap();
    assert_eq!(plain(report), vec![entry(Some("a"), 1, 2)]);
}

#[test]
fn failure_of_a_report_in_words() {
    assert_eq!(QueryError::TotalTooLarge.message(), "integer overflow");
}

#[test]
fn clients_with_equal_bytes_are_listed_in_the_order_of_their_first_rows() {
    let rows = vec![
        closed(1, Some("c"), 5, 5),
        closed(2, Some("a"), 10, 0),
        closed(3, Some("big"), 100, 0),
        closed(4, Some("b"), 0, 10),
        closed(5, Some("c"), 0, 0),
        closed(6, None, 4, 6),
    ];
    let report = query_traffic_by_client(&rows, 0, 10).unwrap();
    assert_eq!(
        plain(report),
        vec![
            entry(Some("big"), 100, 0),
            entry(Some("c"), 5, 5),
            entry(Some("a"), 10, 0),
            entry(Some("b"), 0, 10),
            entry(None, 4, 6),
        ]
    );
    let report = query_traffic_by_client(&rows, 2, 10).unwrap();
    assert_eq!(
        plain(report),
        vec![
            entry(Some("big"), 100, 0),
            entry(Some("a"), 10, 0),
            entry(Some("b"), 0, 10),
            entry(None, 4, 6),
            entry(Some("c"), 0, 0),
        ]
    );
}
