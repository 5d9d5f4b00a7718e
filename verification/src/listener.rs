//! The listener of one forwarding rule.
//!
//! The listener binds the local port of its rule and accepts connections
//! for as long as the program runs. Every accepted connection gets a relay
//! of its own. A failed accept is recorded as an error event without a
//! client address, and the listener goes on.

use vstd::prelude::*;
use crate::config::{or_default, ConfigConnect, DEFAULT_IDLE_TIMEOUT_SECONDS};
use crate::events::{opt_text, EventKind, LogEvent, LogEventView};
use crate::relay::{Relay, RelayView};

verus! {

/// How a call of accept ended.
#[derive(Debug)]
pub enum AcceptOutcome {
    /// A client connected; its address is given where it could be read.
    Accepted { client_addr: Option<String> },
    /// The call itself failed.
    Failed { error: String },
}

/// What the listener does after a call of accept.
#[derive(Debug)]
pub enum ListenerAction {
    /// Run `relay` for the accepted connection, on a task of its own, with
    /// the given idle timeout on every read.
    Spawn { relay: Relay, idle_timeout_seconds: u64 },
    /// Publish the event and accept again.
    Publish(LogEvent),
}

/// The event that records a failed accept at time `ts`: an error event of
/// the rule, without a client address, with the text of the failure.
pub open spec fn accept_error_event(
    rule: ConfigConnect,
    ts: i64,
    error: Seq<char>,
) -> LogEventView {
    LogEventView {
        kind: EventKind::Error,
        ts,
        name: rule.name@,
        local_port: rule.local_port,
        remote_address: rule.remote_address@,
        remote_port: rule.remote_port,
        client_addr: None,
        bytes_from_to: 0,
        bytes_to_from: 0,
        error,
    }
}

/// Decides what follows a call of accept that ended at time `ts`.
///
/// An accepted connection gets a fresh relay for the rule's target, which
/// keeps `ts` as the time of the accept, with the rule's idle timeout or the
/// default. A failed accept is published as an
/// error event; it never ends the listener.
pub fn on_accept(rule: &ConfigConnect, outcome: AcceptOutcome, ts: i64) -> (action: ListenerAction)
    ensures
        match outcome {
            AcceptOutcome::Accepted { client_addr } => action matches ListenerAction::Spawn {
                relay,
                idle_timeout_seconds,
            } && relay@ == RelayView::initial(
                rule.name@,
                rule.local_port,
                rule.remote_address@,
                rule.remote_port,
                opt_text(client_addr),
                ts,
            ) && idle_timeout_seconds == or_default(
                rule.idle_timeout_seconds,
                DEFAULT_IDLE_TIMEOUT_SECONDS,
            ),
            AcceptOutcome::Failed { error } => action matches ListenerAction::Publish(event)
                && event@ == accept_error_event(*rule, ts, error@),
        },
{
    match outcome {
        AcceptOutcome::Accepted { client_addr } => ListenerAction::Spawn {
            relay: Relay::new(
                rule.name.clone(),
                rule.local_port,
                rule.remote_address.clone(),
                rule.remote_port,
                client_addr,
                ts,
            ),
            idle_timeout_seconds: rule.idle_timeout(),
        },
        AcceptOutcome::Failed { error } => ListenerAction::Publish(
            LogEvent::ConnectionError {
                ts,
                name: rule.name.clone(),
                local_port: rule.local_port,
                remote_address: rule.remote_address.clone(),
                remote_port: rule.remote_port,
                client_addr: None,
                error,
            },
        ),
    }
}

} // verus!
