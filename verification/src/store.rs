//! The rows that record connection events, and what is kept of them.

use vstd::prelude::*;
use crate::events::{copy_opt_text, opt_text, EventKind, LogEvent, LogEventView};

verus! {

/// One stored record of a lifecycle event. Rows are only ever appended.
#[derive(Clone, Debug)]
pub struct ConnectionRow {
    /// Whole seconds since the Unix epoch.
    pub ts: i64,
    /// The name of the forwarding rule.
    pub name: String,
    /// The kind of event: `connection_started`, `connection_closed`,
    /// `connection_error` or `connection_timeout`.
    pub log_name: String,
    pub local_port: u16,
    pub remote_address: String,
    pub remote_port: u16,
    pub client_addr: Option<String>,
    /// Bytes read from the client; zero unless the row records a close.
    pub bytes_from_to: u64,
    /// Bytes read from the remote target; zero unless the row records a close.
    pub bytes_to_from: u64,
}

/// A `ConnectionRow` with its strings read as sequences of characters and
/// its counters as natural numbers.
pub struct ConnectionRowView {
    pub ts: i64,
    pub name: Seq<char>,
    pub log_name: Seq<char>,
    pub local_port: u16,
    pub remote_address: Seq<char>,
    pub remote_port: u16,
    pub client_addr: Option<Seq<char>>,
    pub bytes_from_to: nat,
    pub bytes_to_from: nat,
}

impl View for ConnectionRow {
    type V = ConnectionRowView;

    open spec fn view(&self) -> ConnectionRowView {
        ConnectionRowView {
            ts: self.ts,
            name: self.name@,
            log_name: self.log_name@,
            local_port: self.local_port,
            remote_address: self.remote_address@,
            remote_port: self.remote_port,
            client_addr: opt_text(self.client_addr),
            bytes_from_to: self.bytes_from_to as nat,
            bytes_to_from: self.bytes_to_from as nat,
        }
    }
}

/// The views of a sequence of rows, in order.
pub open spec fn row_views(rows: Seq<ConnectionRow>) -> Seq<ConnectionRowView> {
    rows.map_values(|r: ConnectionRow| r@)
}

/// The name under which a kind of event is stored.
pub open spec fn kind_name(kind: EventKind) -> Seq<char> {
    match kind {
        EventKind::Started => "connection_started"@,
        EventKind::Closed => "connection_closed"@,
        EventKind::Error => "connection_error"@,
        EventKind::Timeout => "connection_timeout"@,
    }
}

/// The row that records an event: the event's time, rule, ports and
/// addresses, the name of its kind, and its byte counters if it is a close
/// event, zero otherwise. An error text is not stored.
pub open spec fn row_of(e: LogEventView) -> ConnectionRowView {
    ConnectionRowView {
        ts: e.ts,
        name: e.name,
        log_name: kind_name(e.kind),
        local_port: e.local_port,
        remote_address: e.remote_address,
        remote_port: e.remote_port,
        client_addr: e.client_addr,
        bytes_from_to: if e.kind == EventKind::Closed {
            e.bytes_from_to
        } else {
            0
        },
        bytes_to_from: if e.kind == EventKind::Closed {
            e.bytes_to_from
        } else {
            0
        },
    }
}

/// Whether a row records the close of a connection.
pub open spec fn is_closed_row(r: ConnectionRowView) -> bool {
    r.log_name == kind_name(EventKind::Closed)
}

/// Whether only a close row carries byte counts.
pub open spec fn counts_only_when_closed(r: ConnectionRowView) -> bool {
    !is_closed_row(r) ==> r.bytes_from_to == 0 && r.bytes_to_from == 0
}

/// The four kinds have four different names.
pub proof fn law_kind_names_differ(a: EventKind, b: EventKind)
    ensures
        kind_name(a) == kind_name(b) <==> a == b,
{
    reveal_strlit("connection_started");
    reveal_strlit("connection_closed");
    reveal_strlit("connection_error");
    reveal_strlit("connection_timeout");
    let started = kind_name(EventKind::Started);
    let closed = kind_name(EventKind::Closed);
    let error = kind_name(EventKind::Error);
    let timeout = kind_name(EventKind::Timeout);
    assert(started.len() == 18 && closed.len() == 17 && error.len() == 16 && timeout.len() == 18);
    assert(started[11] == 's' && timeout[11] == 't');
}

/// The row of an event is a close row exactly when the event is a close
/// event, and only then does it carry byte counts.
pub proof fn law_row_of_event(e: LogEventView)
    ensures
        is_closed_row(row_of(e)) <==> e.kind == EventKind::Closed,
        counts_only_when_closed(row_of(e)),
{
    law_kind_names_differ(e.kind, EventKind::Closed);
}

/// Turns a lifecycle event into the row that records it.
pub fn row_from_event(event: LogEvent) -> (row: ConnectionRow)
    ensures
        row@ == row_of(event@),
        counts_only_when_closed(row@),
{
    match event {
        LogEvent::ConnectionStarted {
            ts,
            name,
            local_port,
            remote_address,
            remote_port,
            client_addr,
        } => ConnectionRow {
            log_name: "connection_started".to_owned(),
            ts,
            name,
            local_port,
            remote_address,
            remote_port,
            client_addr,
            bytes_from_to: 0,
            bytes_to_from: 0,
        },
        LogEvent::ConnectionClosed {
            ts,
            name,
            local_port,
            remote_address,
            remote_port,
            client_addr,
            bytes_from_to,
            bytes_to_from,
        } => ConnectionRow {
            log_name: "connection_closed".to_owned(),
            ts,
            name,
            local_port,
            remote_address,
            remote_port,
            client_addr,
            bytes_from_to,
            bytes_to_from,
        },
        LogEvent::ConnectionError {
            ts,
            name,
            local_port,
            remote_address,
            remote_port,
            client_addr,
            error,
        } => ConnectionRow {
            log_name: "connection_error".to_owned(),
            ts,
            name,
            local_port,
            remote_address,
            remote_port,
            client_addr,
            bytes_from_to: 0,
            bytes_to_from: 0,
        },
        LogEvent::ConnectionTimeout {
            ts,
            name,
            local_port,
            remote_address,
            remote_port,
            client_addr,
            error,
        } => ConnectionRow {
            log_name: "connection_timeout".to_owned(),
            ts,
            name,
            local_port,
            remote_address,
            remote_port,
            client_addr,
            bytes_from_to: 0,
            bytes_to_from: 0,
        },
    }
}

/// A row as the table holds it: integers of 64 bits with a sign, and
/// every column but the time may be missing.
#[derive(Clone, Debug)]
pub struct StoredRow {
    pub ts: i64,
    pub name: Option<String>,
    pub log_name: Option<String>,
    pub local_port: Option<i64>,
    pub remote_address: Option<String>,
    pub remote_port: Option<i64>,
    pub client_addr: Option<String>,
    pub bytes_from_to: Option<i64>,
    pub bytes_to_from: Option<i64>,
}

/// A `StoredRow` with its strings read as sequences of characters.
pub struct StoredRowView {
    pub ts: i64,
    pub name: Option<Seq<char>>,
    pub log_name: Option<Seq<char>>,
    pub local_port: Option<i64>,
    pub remote_address: Option<Seq<char>>,
    pub remote_port: Option<i64>,
    pub client_addr: Option<Seq<char>>,
    pub bytes_from_to: Option<i64>,
    pub bytes_to_from: Option<i64>,
}

impl View for StoredRow {
    type V = StoredRowView;

    open spec fn view(&self) -> StoredRowView {
        StoredRowView {
            ts: self.ts,
            name: opt_text(self.name),
            log_name: opt_text(self.log_name),
            local_port: self.local_port,
            remote_address: opt_text(self.remote_address),
            remote_port: self.remote_port,
            client_addr: opt_text(self.client_addr),
            bytes_from_to: self.bytes_from_to,
            bytes_to_from: self.bytes_to_from,
        }
    }
}

/// The text of a column, empty where the column is missing.
pub open spec fn text_or_empty(column: Option<Seq<char>>) -> Seq<char> {
    match column {
        Some(text) => text,
        None => Seq::empty(),
    }
}

/// The port of a column: zero where the column is missing or holds no port.
pub open spec fn port_of(column: Option<i64>) -> u16 {
    match column {
        Some(n) => if 0 <= n <= u16::MAX {
            n as u16
        } else {
            0
        },
        None => 0,
    }
}

/// The count of a column: zero where the column is missing or negative.
pub open spec fn count_of(column: Option<i64>) -> nat {
    match column {
        Some(n) => if n > 0 {
            n as nat
        } else {
            0
        },
        None => 0,
    }
}

/// What the table holds for a row: every column is present, and a counter
/// is stored as the signed integer of the same 64 bits.
pub open spec fn stored_of(row: ConnectionRow) -> StoredRowView {
    StoredRowView {
        ts: row.ts,
        name: Some(row.name@),
        log_name: Some(row.log_name@),
        local_port: Some(row.local_port as i64),
        remote_address: Some(row.remote_address@),
        remote_port: Some(row.remote_port as i64),
        client_addr: opt_text(row.client_addr),
        bytes_from_to: Some(row.bytes_from_to as i64),
        bytes_to_from: Some(row.bytes_to_from as i64),
    }
}

/// The row that is read back from what the table holds.
pub open spec fn loaded_of(stored: StoredRowView) -> ConnectionRowView {
    ConnectionRowView {
        ts: stored.ts,
        name: text_or_empty(stored.name),
        log_name: text_or_empty(stored.log_name),
        local_port: port_of(stored.local_port),
        remote_address: text_or_empty(stored.remote_address),
        remote_port: port_of(stored.remote_port),
        client_addr: stored.client_addr,
        bytes_from_to: count_of(stored.bytes_from_to),
        bytes_to_from: count_of(stored.bytes_to_from),
    }
}

fn text_column(column: Option<String>) -> (text: String)
    ensures
        text@ == text_or_empty(opt_text(column)),
{
    match column {
        Some(text) => text,
        None => String::new(),
    }
}

fn port_column(column: Option<i64>) -> (port: u16)
    ensures
        port == port_of(column),
{
    match column {
        Some(n) => if 0 <= n && n <= 65535 {
            n as u16
        } else {
            0
        },
        None => 0,
    }
}

fn count_column(column: Option<i64>) -> (count: u64)
    ensures
        count == count_of(column),
{
    match column {
        Some(n) => if n > 0 {
            n as u64
        } else {
            0
        },
        None => 0,
    }
}

impl ConnectionRow {
    /// The values that are written to the table for this row.
    pub fn to_stored(&self) -> (stored: StoredRow)
        ensures
            stored@ == stored_of(*self),
    {
        StoredRow {
            ts: self.ts,
            name: Some(self.name.clone()),
            log_name: Some(self.log_name.clone()),
            local_port: Some(self.local_port as i64),
            remote_address: Some(self.remote_address.clone()),
            remote_port: Some(self.remote_port as i64),
            client_addr: copy_opt_text(&self.client_addr),
            bytes_from_to: Some(
                #[verifier::truncate]
                (self.bytes_from_to as i64),
            ),
            bytes_to_from: Some(
                #[verifier::truncate]
                (self.bytes_to_from as i64),
            ),
        }
    }

    /// The row that the values of the table stand for. A missing text is
    /// empty; a missing or negative counter, and a missing or impossible
    /// port, is zero.
    pub fn from_stored(stored: StoredRow) -> (row: ConnectionRow)
        ensures
            row@ == loaded_of(stored@),
    {
        ConnectionRow {
            ts: stored.ts,
            name: text_column(stored.name),
            log_name: text_column(stored.log_name),
            local_port: port_column(stored.local_port),
            remote_address: text_column(stored.remote_address),
            remote_port: port_column(stored.remote_port),
            client_addr: stored.client_addr,
            bytes_from_to: count_column(stored.bytes_from_to),
            bytes_to_from: count_column(stored.bytes_to_from),
        }
    }
}

/// A row whose counters are below 2^63 is read back from the table as it
/// was written.
pub proof fn law_stored_row_reads_back(row: ConnectionRow)
    requires
        row.bytes_from_to <= i64::MAX,
        row.bytes_to_from <= i64::MAX,
    ensures
        loaded_of(stored_of(row)) == row@,
{
}

} // verus!
