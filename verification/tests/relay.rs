use rs_port_forward::events::{EventKind, LogEvent};
use rs_port_forward::relay::{Direction, Directive, Phase, Relay, RelayInput, RelayOutput};

fn relay() -> Relay {
    Relay::new(
        "echo".to_string(),
        9000,
        "127.0.0.1".to_string(),
        9100,
        Some("10.0.0.7".to_string()),
        42,
    )
}

fn kinds(events: &[LogEvent]) -> Vec<EventKind> {
    events.iter().map(|e| e.kind()).collect()
}

/// Feeds the inputs to a fresh relay and gathers everything it publishes.
fn run(inputs: Vec<(RelayInput, i64)>) -> (Relay, Vec<LogEvent>) {
    let mut r = relay();
    let mut published = Vec::new();
    for (input, ts) in inputs {
        assert!(r.accepts(&input));
        let RelayOutput { events, .. } = r.step(input, ts);
        published.extend(events);
    }
    (r, published)
}

fn read(direction: Direction, count: usize) -> RelayInput {
    RelayInput::Read { direction, count }
}

#[test]
fn scenario_a_echo_of_100_bytes() {
    let mut r = relay();
    let out = r.step(RelayInput::DialSucceeded, 1_700_000_000);
    assert_eq!(out.directive, Directive::StartCopying);
    assert_eq!(kinds(&out.events), vec![EventKind::Started]);

    let out = r.step(read(Direction::ClientToRemote, 100), 1_700_000_001);
    assert!(out.events.is_empty());
    assert_eq!(
        out.directive,
        Directive::Forward { direction: Direction::ClientToRemote, count: 100 }
    );

    let out = r.step(read(Direction::RemoteToClient, 100), 1_700_000_001);
    assert!(out.events.is_empty());
    assert_eq!(
        out.directive,
        Directive::Forward { direction: Direction::RemoteToClient, count: 100 }
    );

    let out = r.step(read(Direction::ClientToRemote, 0), 1_700_000_002);
    assert_eq!(out.directive, Directive::Stop);
    assert_eq!(out.events.len(), 1);
    match &out.events[0] {
        LogEvent::ConnectionClosed {
            ts,
            name,
            local_port,
            remote_address,
            remote_port,
            client_addr,
            bytes_from_to,
            bytes_to_from,
        } => {
            assert_eq!(*ts, 1_700_000_002);
            assert_eq!(name, "echo");
            assert_eq!(*local_port, 9000);
            assert_eq!(remote_address, "127.0.0.1");
            assert_eq!(*remote_port, 9100);
            assert_eq!(client_addr.as_deref(), Some("10.0.0.7"));
            assert_eq!(*bytes_from_to, 100);
            assert_eq!(*bytes_to_from, 100);
        }
        other => panic!("expected a close event, got {:?}", other),
    }
    assert_eq!(r.phase(), Phase::Closed);
    assert_eq!(r.bytes_from_to(), 100);
    assert_eq!(r.bytes_to_from(), 100);
    assert_eq!(r.accepted_at(), 42);
}

#[test]
fn scenario_b_idle_client_times_out() {
    let (r, published) = run(vec![
        (RelayInput::DialSucceeded, 50),
        (RelayInput::IdleTimeout { direction: Direction::ClientToRemote }, 51),
    ]);
    assert_eq!(
        kinds(&published),
        vec![EventKind::Started, EventKind::Timeout, EventKind::Closed]
    );
    match &published[1] {
        LogEvent::ConnectionTimeout { ts, error, client_addr, .. } => {
            assert_eq!(*ts, 51);
            assert_eq!(error, "Connection timeout (client->remote)");
            assert_eq!(client_addr.as_deref(), Some("10.0.0.7"));
        }
        other => panic!("expected a timeout event, got {:?}", other),
    }
    match &published[2] {
        LogEvent::ConnectionClosed { ts, bytes_from_to, bytes_to_from, .. } => {
            assert_eq!(*ts, 51);
            assert_eq!(*bytes_from_to, 0);
            assert_eq!(*bytes_to_from, 0);
        }
        other => panic!("expected a close event, got {:?}", other),
    }
    assert_eq!(r.phase(), Phase::Closed);
}

#[test]
fn timeout_of_the_remote_side_names_its_direction() {
    let (_, published) = run(vec![
        (RelayInput::DialSucceeded, 1),
        (read(Direction::ClientToRemote, 7), 2),
        (RelayInput::IdleTimeout { direction: Direction::RemoteToClient }, 12),
    ]);
    assert_eq!(published.len(), 3);
    match &published[1] {
        LogEvent::ConnectionTimeout { error, .. } => {
            assert_eq!(error, "Connection timeout (remote->client)");
        }
        other => panic!("expected a timeout event, got {:?}", other),
    }
    match &published[2] {
        LogEvent::ConnectionClosed { bytes_from_to, bytes_to_from, .. } => {
            assert_eq!((*bytes_from_to, *bytes_to_from), (7, 0));
        }
        other => panic!("expected a close event, got {:?}", other),
    }
}

#[test]
fn scenario_c_refused_dial_publishes_one_error() {
    let (r, published) = run(vec![
        (RelayInput::DialFailed { error: "Connection refused (os error 111)".to_string() }, 9),
        (read(Direction::ClientToRemote, 10), 10),
        (read(Direction::ClientToRemote, 0), 11),
        (RelayInput::IdleTimeout { direction: Direction::RemoteToClient }, 12),
        (RelayInput::DialSucceeded, 13),
    ]);
    assert_eq!(kinds(&published), vec![EventKind::Error]);
    match &published[0] {
        LogEvent::ConnectionError { ts, name, error, client_addr, local_port, .. } => {
            assert_eq!(*ts, 9);
            assert_eq!(name, "echo");
            assert_eq!(error, "Connection refused (os error 111)");
            assert_eq!(client_addr.as_deref(), Some("10.0.0.7"));
            assert_eq!(*local_port, 9000);
        }
        other => panic!("expected an error event, got {:?}", other),
    }
    assert_eq!(r.phase(), Phase::DialFailed);
    assert_eq!(r.bytes_from_to(), 0);
}

#[test]
fn failed_dial_tells_the_caller_to_stop() {
    let mut r = relay();
    let out = r.step(RelayInput::DialFailed { error: "no route".to_string() }, 1);
    assert_eq!(out.directive, Directive::Stop);
    let out = r.step(RelayInput::DialSucceeded, 2);
    assert_eq!(out.directive, Directive::Ignore);
    assert!(out.events.is_empty());
}

#[test]
fn counters_add_up_the_reads_of_each_side() {
    let (r, published) = run(vec![
        (RelayInput::DialSucceeded, 1),
        (read(Direction::ClientToRemote, 8192), 1),
        (read(Direction::RemoteToClient, 1), 1),
        (read(Direction::ClientToRemote, 8192), 2),
        (read(Direction::RemoteToClient, 4000), 2),
        (read(Direction::ClientToRemote, 16), 3),
        (read(Direction::RemoteToClient, 0), 4),
    ]);
    assert_eq!(kinds(&published), vec![EventKind::Started, EventKind::Closed]);
    match &published[1] {
        LogEvent::ConnectionClosed { bytes_from_to, bytes_to_from, .. } => {
            assert_eq!(*bytes_from_to, 16400);
            assert_eq!(*bytes_to_from, 4001);
        }
        other => panic!("expected a close event, got {:?}", other),
    }
    assert_eq!(r.bytes_from_to(), 16400);
    assert_eq!(r.bytes_to_from(), 4001);
}

#[test]
fn read_and_write_failures_close_with_the_bytes_so_far() {
    for last in [
        RelayInput::ReadFailed { direction: Direction::RemoteToClient },
        RelayInput::WriteFailed { direction: Direction::ClientToRemote },
    ] {
        let (r, published) = run(vec![
            (RelayInput::DialSucceeded, 1),
            (read(Direction::ClientToRemote, 30), 2),
            (last, 3),
        ]);
        assert_eq!(kinds(&published), vec![EventKind::Started, EventKind::Closed]);
        match &published[1] {
            LogEvent::ConnectionClosed { ts, bytes_from_to, bytes_to_from, .. } => {
                assert_eq!((*ts, *bytes_from_to, *bytes_to_from), (3, 30, 0));
            }
            other => panic!("expected a close event, got {:?}", other),
        }
        assert_eq!(r.phase(), Phase::Closed);
    }
}

#[test]
fn nothing_is_published_after_the_close() {
    let (r, published) = run(vec![
        (RelayInput::DialSucceeded, 1),
        (read(Direction::ClientToRemote, 0), 2),
        (read(Direction::RemoteToClient, 0), 2),
        (read(Direction::RemoteToClient, 500), 3),
        (RelayInput::IdleTimeout { direction: Direction::RemoteToClient }, 4),
        (RelayInput::WriteFailed { direction: Direction::RemoteToClient }, 5),
    ]);
    assert_eq!(kinds(&published), vec![EventKind::Started, EventKind::Closed]);
    assert_eq!(r.bytes_to_from(), 0);
}

#[test]
fn reports_about_the_sockets_are_ignored_while_dialing() {
    let mut r = relay();
    for input in [
        read(Direction::ClientToRemote, 5),
        read(Direction::ClientToRemote, 0),
        RelayInput::ReadFailed { direction: Direction::ClientToRemote },
        RelayInput::WriteFailed { direction: Direction::ClientToRemote },
        RelayInput::IdleTimeout { direction: Direction::ClientToRemote },
    ] {
        let out = r.step(input, 1);
        assert!(out.events.is_empty());
        assert_eq!(out.directive, Directive::Ignore);
    }
    assert_eq!(r.phase(), Phase::Dialing);
    assert_eq!(r.bytes_from_to(), 0);
}

#[test]
fn a_second_dial_result_is_ignored_while_relaying() {
    let mut r = relay();
    r.step(RelayInput::DialSucceeded, 1);
    let out = r.step(RelayInput::DialSucceeded, 2);
    assert!(out.events.is_empty());
    assert_eq!(out.directive, Directive::Ignore);
    let out = r.step(RelayInput::DialFailed { error: "late".to_string() }, 3);
    assert!(out.events.is_empty());
    assert_eq!(out.directive, Directive::Ignore);
    assert_eq!(r.phase(), Phase::Relaying);
}

#[test]
fn a_read_that_would_overflow_the_counter_is_not_accepted() {
    let mut r = relay();
    r.step(RelayInput::DialSucceeded, 1);
    let mut left = u64::MAX;
    while left > 0 {
        let chunk = if left > usize::MAX as u64 { usize::MAX } else { left as usize };
        let input = read(Direction::ClientToRemote, chunk);
        assert!(r.accepts(&input));
        r.step(input, 1);
        left -= chunk as u64;
    }
    assert_eq!(r.bytes_from_to(), u64::MAX);
    assert!(!r.accepts(&read(Direction::ClientToRemote, 1)));
    assert!(r.accepts(&read(Direction::ClientToRemote, 0)));
    assert!(r.accepts(&read(Direction::RemoteToClient, 1)));
    assert!(r.accepts(&RelayInput::IdleTimeout { direction: Direction::ClientToRemote }));
}

#[test]
fn a_connection_without_peer_address_has_none_in_its_events() {
    let mut r = Relay::new("r".to_string(), 1, "h".to_string(), 2, None, 0);
    assert_eq!(r.accepted_at(), 0);
    let out = r.step(RelayInput::DialSucceeded, 1);
    match &out.events[0] {
        LogEvent::ConnectionStarted { client_addr, ts, .. } => {
            assert_eq!(*client_addr, None);
            assert_eq!(*ts, 1);
        }
        other => panic!("expected a start event, got {:?}", other),
    }
}

#[test]
fn relay_try_step_takes_what_step_takes() {
    let mut r = relay();
    let out = r.try_step(RelayInput::DialSucceeded, 1).unwrap();
    assert_eq!(out.directive, Directive::StartCopying);
    assert_eq!(kinds(&out.events), vec![EventKind::Started]);
    let out = r.try_step(read(Direction::RemoteToClient, 3), 2).unwrap();
    assert_eq!(
        out.directive,
        Directive::Forward { direction: Direction::RemoteToClient, count: 3 }
    );
    let out = r.try_step(read(Direction::RemoteToClient, 0), 3).unwrap();
    assert_eq!(kinds(&out.events), vec![EventKind::Closed]);
    assert_eq!(r.bytes_to_from(), 3);
}

#[test]
fn try_step_refuses_a_read_that_would_overflow() {
    let mut r = relay();
    r.step(RelayInput::DialSucceeded, 1);
    let mut left = u64::MAX - 5;
    while left > 0 {
        let chunk = if left > usize::MAX as u64 { usize::MAX } else { left as usize };
        assert!(r.try_step(read(Direction::RemoteToClient, chunk), 1).is_some());
        left -= chunk as u64;
    }
    assert!(r.try_step(read(Direction::RemoteToClient, 6), 2).is_none());
    assert_eq!(r.bytes_to_from(), u64::MAX - 5);
    assert_eq!(r.phase(), Phase::Relaying);
    assert!(r.try_step(read(Direction::RemoteToClient, 5), 2).is_some());
    assert_eq!(r.bytes_to_from(), u64::MAX);
    let out = r.try_step(read(Direction::RemoteToClient, 0), 3).unwrap();
    match &out.events[0] {
        LogEvent::ConnectionClosed { bytes_from_to, bytes_to_from, .. } => {
            assert_eq!((*bytes_from_to, *bytes_to_from), (0, u64::MAX));
        }
        other => panic!("expected a close event, got {:?}", other),
    }
}
