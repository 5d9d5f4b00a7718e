//! Lifecycle events of forwarded connections.

use vstd::prelude::*;

verus! {

/// The four kinds of lifecycle event.
#[derive(Clone, Copy, Debug, PartialEq, Eq, Structural)]
pub enum EventKind {
    Started,
    Closed,
    Error,
    Timeout,
}

/// One lifecycle event of a forwarded connection.
///
/// `ts` is the time of the event in whole seconds since the Unix epoch.
#[derive(Clone, Debug)]
pub enum LogEvent {
    ConnectionStarted {
        ts: i64,
        name: String,
        local_port: u16,
        remote_address: String,
        remote_port: u16,
        client_addr: Option<String>,
    },
    ConnectionClosed {
        ts: i64,
        name: String,
        local_port: u16,
        remote_address: String,
        remote_port: u16,
        client_addr: Option<String>,
        bytes_from_to: u64,
        bytes_to_from: u64,
    },
    ConnectionError {
        ts: i64,
        name: String,
        local_port: u16,
        remote_address: String,
        remote_port: u16,
        client_addr: Option<String>,
        error: String,
    },
    ConnectionTimeout {
        ts: i64,
        name: String,
        local_port: u16,
        remote_address: String,
        remote_port: u16,
        client_addr: Option<String>,
        error: String,
    },
}

/// The mathematical content of an optional string.
pub open spec fn opt_text(s: Option<String>) -> Option<Seq<char>> {
    match s {
        Some(t) => Some(t@),
        None => None,
    }
}

/// What a `LogEvent` says, with every string read as a sequence of
/// characters. The byte counters are zero for every kind but `Closed`, and
/// `error` is empty for `Started` and `Closed`.
pub struct LogEventView {
    pub kind: EventKind,
    pub ts: i64,
    pub name: Seq<char>,
    pub local_port: u16,
    pub remote_address: Seq<char>,
    pub remote_port: u16,
    pub client_addr: Option<Seq<char>>,
    pub bytes_from_to: nat,
    pub bytes_to_from: nat,
    pub error: Seq<char>,
}

impl View for LogEvent {
    type V = LogEventView;

    open spec fn view(&self) -> LogEventView {
        match *self {
            LogEvent::ConnectionStarted {
                ts,
                name,
                local_port,
                remote_address,
                remote_port,
                client_addr,
            } => LogEventView {
                kind: EventKind::Started,
                ts,
                name: name@,
                local_port,
                remote_address: remote_address@,
                remote_port,
                client_addr: opt_text(client_addr),
                bytes_from_to: 0,
                bytes_to_from: 0,
                error: Seq::empty(),
            },
            LogEvent::ConnectionClosed {
                ts,
                name,
                local_port,
                remote_address,
                remote_port,
                client_addr,
                bytes_from_to,
                bytes_to_from,
            } => LogEventView {
                kind: EventKind::Closed,
                ts,
                name: name@,
                local_port,
                remote_address: remote_address@,
                remote_port,
                client_addr: opt_text(client_addr),
                bytes_from_to: bytes_from_to as nat,
                bytes_to_from: bytes_to_from as nat,
                error: Seq::empty(),
            },
            LogEvent::ConnectionError {
                ts,
                name,
                local_port,
                remote_address,
                remote_port,
                client_addr,
                error,
            } => LogEventView {
                kind: EventKind::Error,
                ts,
                name: name@,
                local_port,
                remote_address: remote_address@,
                remote_port,
                client_addr: opt_text(client_addr),
                bytes_from_to: 0,
                bytes_to_from: 0,
                error: error@,
            },
            LogEvent::ConnectionTimeout {
                ts,
                name,
                local_port,
                remote_address,
                remote_port,
                client_addr,
                error,
            } => LogEventView {
                kind: EventKind::Timeout,
                ts,
                name: name@,
                local_port,
                remote_address: remote_address@,
                remote_port,
                client_addr: opt_text(client_addr),
                bytes_from_to: 0,
                bytes_to_from: 0,
                error: error@,
            },
        }
    }
}

/// A copy of an optional string.
pub fn copy_opt_text(s: &Option<String>) -> (r: Option<String>)
    ensures
        r == *s,
{
    match s {
        Some(t) => Some(t.clone()),
        None => None,
    }
}

/// The views of a sequence of events, in order.
pub open spec fn event_views(events: Seq<LogEvent>) -> Seq<LogEventView> {
    events.map_values(|e: LogEvent| e@)
}

/// How many events of `kind` a sequence holds.
pub open spec fn count_kind(events: Seq<LogEventView>, kind: EventKind) -> nat
    decreases events.len(),
{
    if events.len() == 0 {
        0
    } else {
        count_kind(events.drop_last(), kind) + if events.last().kind == kind {
            1nat
        } else {
            0nat
        }
    }
}

impl LogEvent {
    /// The kind of this event.
    pub fn kind(&self) -> (k: EventKind)
        ensures
            k == self@.kind,
    {
        match self {
            LogEvent::ConnectionStarted { .. } => EventKind::Started,
            LogEvent::ConnectionClosed { .. } => EventKind::Closed,
            LogEvent::ConnectionError { .. } => EventKind::Error,
            LogEvent::ConnectionTimeout { .. } => EventKind::Timeout,
        }
    }
}

} // verus!
