use rs_port_forward::store::{ConnectionRow, StoredRow};

fn row(from_to: u64, to_from: u64) -> ConnectionRow {
    ConnectionRow {
        ts: 1_700_000_000,
        name: "web".to_string(),
        log_name: "connection_closed".to_string(),
        local_port: 65535,
        remote_address: "10.1.1.1".to_string(),
        remote_port: 80,
        client_addr: Some("10.0.0.7".to_string()),
        bytes_from_to: from_to,
        bytes_to_from: to_from,
    }
}

#[test]
fn stored_values_of_a_row() {
    let s = row(100, 200).to_stored();
    assert_eq!(s.ts, 1_700_000_000);
    assert_eq!(s.name.as_deref(), Some("web"));
    assert_eq!(s.log_name.as_deref(), Some("connection_closed"));
    assert_eq!(s.local_port, Some(65535));
    assert_eq!(s.remote_address.as_deref(), Some("10.1.1.1"));
    assert_eq!(s.remote_port, Some(80));
    assert_eq!(s.client_addr.as_deref(), Some("10.0.0.7"));
    assert_eq!(s.bytes_from_to, Some(100));
    assert_eq!(s.bytes_to_from, Some(200));
}

#[test]
fn counter_is_stored_as_the_signed_integer_of_the_same_bits() {
    let s = row(i64::MAX as u64, i64::MAX as u64 + 1).to_stored();
    assert_eq!(s.bytes_from_to, Some(i64::MAX));
    assert_eq!(s.bytes_to_from, Some(i64::MIN));
    let s = row(u64::MAX, 0).to_stored();
    assert_eq!(s.bytes_from_to, Some(-1));
    assert_eq!(s.bytes_to_from, Some(0));
}

#[test]
fn row_reads_back_as_it_was_written() {
    for (a, b) in [(0, 0), (100, 200), (i64::MAX as u64, 1)] {
        let before = row(a, b);
        let after = ConnectionRow::from_stored(before.to_stored());
        assert_eq!(after.ts, before.ts);
        assert_eq!(after.name, before.name);
        assert_eq!(after.log_name, before.log_name);
        assert_eq!(after.local_port, before.local_port);
        assert_eq!(after.remote_address, before.remote_address);
        assert_eq!(after.remote_port, before.remote_port);
        assert_eq!(after.client_addr, before.client_addr);
        assert_eq!(after.bytes_from_to, before.bytes_from_to);
        assert_eq!(after.bytes_to_from, before.bytes_to_from);
    }
}

#[test]
fn row_without_client_reads_back_without_client() {
    let mut before = row(1, 2);
    before.client_addr = None;
    let stored = before.to_stored();
    assert_eq!(stored.client_addr, None);
    assert_eq!(ConnectionRow::from_stored(stored).client_addr, None);
}

#[test]
fn missing_columns_read_as_empty_and_zero() {
    let r = ConnectionRow::from_stored(StoredRow {
        ts: -3,
        name: None,
        log_name: None,
        local_port: None,
        remote_address: None,
        remote_port: None,
        client_addr: None,
        bytes_from_to: None,
        bytes_to_from: None,
    });
    assert_eq!(r.ts, -3);
    assert_eq!(r.name, "");
    assert_eq!(r.log_name, "");
    assert_eq!(r.local_port, 0);
    assert_eq!(r.remote_address, "");
    assert_eq!(r.remote_port, 0);
    assert_eq!(r.client_addr, None);
    assert_eq!(r.bytes_from_to, 0);
    assert_eq!(r.bytes_to_from, 0);
}

#[test]
fn negative_counters_and_impossible_ports_read_as_zero() {
    let r = ConnectionRow::from_stored(StoredRow {
        ts: 0,
        name: Some("n".to_string()),
        log_name: Some("connection_closed".to_string()),
        local_port: Some(65536),
        remote_address: Some("h".to_string()),
        remote_port: Some(-1),
        client_addr: Some("c".to_string()),
        bytes_from_to: Some(-1),
        bytes_to_from: Some(i64::MIN),
    });
    assert_eq!((r.local_port, r.remote_port), (0, 0));
    assert_eq!((r.bytes_from_to, r.bytes_to_from), (0, 0));
    let r = ConnectionRow::from_stored(StoredRow {
        ts: 0,
        name: None,
        log_name: None,
        local_port: Some(0),
        remote_address: None,
        remote_port: Some(65535),
        client_addr: None,
        bytes_from_to: Some(i64::MAX),
        bytes_to_from: Some(1),
    });
    assert_eq!((r.local_port, r.remote_port), (0, 65535));
    assert_eq!((r.bytes_from_to, r.bytes_to_from), (i64::MAX as u64, 1));
}
