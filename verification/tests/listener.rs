use rs_port_forward::config::ConfigConnect;
use rs_port_forward::events::{EventKind, LogEvent};
use rs_port_forward::listener::{on_accept, AcceptOutcome, ListenerAction};
use rs_port_forward::relay::{Phase, RelayInput};

fn rule(idle: Option<u64>) -> ConfigConnect {
    ConfigConnect {
        name: "ssh".to_string(),
        local_port: 2222,
        remote_port: 22,
        remote_address: "192.168.0.9".to_string(),
        idle_timeout_seconds: idle,
    }
}

#[test]
fn accepted_connection_gets_a_relay_for_the_rule() {
    let outcome = AcceptOutcome::Accepted { client_addr: Some("203.0.113.5".to_string()) };
    match on_accept(&rule(Some(30)), outcome, 7) {
        ListenerAction::Spawn { mut relay, idle_timeout_seconds } => {
            assert_eq!(idle_timeout_seconds, 30);
            assert_eq!(relay.accepted_at(), 7);
            assert_eq!(relay.phase(), Phase::Dialing);
            assert_eq!(relay.bytes_from_to(), 0);
            assert_eq!(relay.bytes_to_from(), 0);
            let out = relay.step(RelayInput::DialSucceeded, 8);
            match &out.events[0] {
                LogEvent::ConnectionStarted {
                    ts,
                    name,
                    local_port,
                    remote_address,
                    remote_port,
                    client_addr,
                } => {
                    assert_eq!(*ts, 8);
                    assert_eq!(name, "ssh");
                    assert_eq!(*local_port, 2222);
                    assert_eq!(remote_address, "192.168.0.9");
                    assert_eq!(*remote_port, 22);
                    assert_eq!(client_addr.as_deref(), Some("203.0.113.5"));
                }
                other => panic!("expected a start event, got {:?}", other),
            }
        }
        other => panic!("expected a relay, got {:?}", other),
    }
}

#[test]
fn accepted_connection_gets_the_default_idle_timeout() {
    match on_accept(&rule(None), AcceptOutcome::Accepted { client_addr: None }, 7) {
        ListenerAction::Spawn { idle_timeout_seconds, .. } => {
            assert_eq!(idle_timeout_seconds, 10);
        }
        other => panic!("expected a relay, got {:?}", other),
    }
}

#[test]
fn failed_accept_is_published_without_client_address() {
    let outcome = AcceptOutcome::Failed { error: "Too many open files (os error 24)".to_string() };
    match on_accept(&rule(None), outcome, 99) {
        ListenerAction::Publish(event) => {
            assert_eq!(event.kind(), EventKind::Error);
            match event {
                LogEvent::ConnectionError {
                    ts,
                    name,
                    local_port,
                    remote_address,
                    remote_port,
                    client_addr,
                    error,
                } => {
                    assert_eq!(ts, 99);
                    assert_eq!(name, "ssh");
                    assert_eq!(local_port, 2222);
                    assert_eq!(remote_address, "192.168.0.9");
                    assert_eq!(remote_port, 22);
                    assert_eq!(client_addr, None);
                    assert_eq!(error, "Too many open files (os error 24)");
                }
                other => panic!("expected an error event, got {:?}", other),
            }
        }
        other => panic!("expected an event, got {:?}", other),
    }
}
