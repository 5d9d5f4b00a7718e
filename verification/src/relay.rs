//! The state machine of one forwarded connection.
//!
//! A relay starts by dialing its remote target. When the dial fails it
//! publishes one error event and ends. When it succeeds it publishes a start
//! event and copies bytes in both directions until either direction ends (end
//! of stream, a failed read or write, or an idle timeout); then it publishes
//! the close event with the bytes read on each side and ends.
//!
//! The embedding program owns the sockets and the timers. It reports what
//! happened as a [`RelayInput`] and carries out the [`Directive`] it gets
//! back, publishing the events of the [`RelayOutput`] in order.

use vstd::prelude::*;
use crate::events::{
    copy_opt_text, event_views, opt_text, EventKind, LogEvent, LogEventView,
};

verus! {

/// One of the two directions in which a relay copies bytes.
#[derive(Clone, Copy, Debug, PartialEq, Eq, Structural)]
pub enum Direction {
    ClientToRemote,
    RemoteToClient,
}

/// Where a relay stands in its life.
#[derive(Clone, Copy, Debug, PartialEq, Eq, Structural)]
pub enum Phase {
    /// The remote target has not answered yet.
    Dialing,
    /// Both directions are being copied.
    Relaying,
    /// The dial failed; nothing more will happen.
    DialFailed,
    /// A direction ended and the close event was published.
    Closed,
}

/// Something that happened to the sockets of a relay.
#[derive(Debug)]
pub enum RelayInput {
    /// The remote target accepted the connection.
    DialSucceeded,
    /// The remote target could not be reached.
    DialFailed { error: String },
    /// A read returned `count` bytes; zero bytes is the end of the stream.
    Read { direction: Direction, count: usize },
    /// A read failed for another reason than the idle timeout.
    ReadFailed { direction: Direction },
    /// Writing the bytes of an earlier read failed.
    WriteFailed { direction: Direction },
    /// No byte arrived within the idle timeout.
    IdleTimeout { direction: Direction },
}

/// A `RelayInput` with its text read as a sequence of characters.
pub enum RelayInputView {
    DialSucceeded,
    DialFailed { error: Seq<char> },
    Read { direction: Direction, count: nat },
    ReadFailed { direction: Direction },
    WriteFailed { direction: Direction },
    IdleTimeout { direction: Direction },
}

impl View for RelayInput {
    type V = RelayInputView;

    open spec fn view(&self) -> RelayInputView {
        match *self {
            RelayInput::DialSucceeded => RelayInputView::DialSucceeded,
            RelayInput::DialFailed { error } => RelayInputView::DialFailed { error: error@ },
            RelayInput::Read { direction, count } => RelayInputView::Read {
                direction,
                count: count as nat,
            },
            RelayInput::ReadFailed { direction } => RelayInputView::ReadFailed { direction },
            RelayInput::WriteFailed { direction } => RelayInputView::WriteFailed { direction },
            RelayInput::IdleTimeout { direction } => RelayInputView::IdleTimeout { direction },
        }
    }
}

/// What the embedding program does next.
#[derive(Clone, Copy, Debug, PartialEq, Eq, Structural)]
pub enum Directive {
    /// Start reading in both directions.
    StartCopying,
    /// Write the `count` bytes just read to the other side, then read again
    /// in the same direction.
    Forward { direction: Direction, count: usize },
    /// Drop both sockets; the relay has ended.
    Stop,
    /// The input does not apply in this phase; go on as before.
    Ignore,
}

/// The answer of a relay to one input.
#[derive(Debug)]
pub struct RelayOutput {
    /// The events to publish, in this order.
    pub events: Vec<LogEvent>,
    pub directive: Directive,
}

/// One forwarded connection.
#[derive(Debug)]
pub struct Relay {
    name: String,
    local_port: u16,
    remote_address: String,
    remote_port: u16,
    client_addr: Option<String>,
    accepted_at: i64,
    phase: Phase,
    bytes_from_to: u64,
    bytes_to_from: u64,
}

/// The state of a relay, with unbounded byte counters.
pub struct RelayView {
    pub name: Seq<char>,
    pub local_port: u16,
    pub remote_address: Seq<char>,
    pub remote_port: u16,
    pub client_addr: Option<Seq<char>>,
    /// The time at which the connection was accepted.
    pub accepted_at: i64,
    pub phase: Phase,
    pub bytes_from_to: nat,
    pub bytes_to_from: nat,
}

impl View for Relay {
    type V = RelayView;

    closed spec fn view(&self) -> RelayView {
        RelayView {
            name: self.name@,
            local_port: self.local_port,
            remote_address: self.remote_address@,
            remote_port: self.remote_port,
            client_addr: opt_text(self.client_addr),
            accepted_at: self.accepted_at,
            phase: self.phase,
            bytes_from_to: self.bytes_from_to as nat,
            bytes_to_from: self.bytes_to_from as nat,
        }
    }
}

/// The error text of the timeout event of a direction.
pub open spec fn timeout_text(direction: Direction) -> Seq<char> {
    match direction {
        Direction::ClientToRemote => "Connection timeout (client->remote)"@,
        Direction::RemoteToClient => "Connection timeout (remote->client)"@,
    }
}

impl RelayView {
    /// The state in which every relay starts.
    pub open spec fn initial(
        name: Seq<char>,
        local_port: u16,
        remote_address: Seq<char>,
        remote_port: u16,
        client_addr: Option<Seq<char>>,
        accepted_at: i64,
    ) -> RelayView {
        RelayView {
            name,
            local_port,
            remote_address,
            remote_port,
            client_addr,
            accepted_at,
            phase: Phase::Dialing,
            bytes_from_to: 0,
            bytes_to_from: 0,
        }
    }

    /// An event of this connection without counters or error text.
    pub open spec fn event(self, kind: EventKind, ts: i64) -> LogEventView {
        LogEventView {
            kind,
            ts,
            name: self.name,
            local_port: self.local_port,
            remote_address: self.remote_address,
            remote_port: self.remote_port,
            client_addr: self.client_addr,
            bytes_from_to: 0,
            bytes_to_from: 0,
            error: Seq::empty(),
        }
    }

    pub open spec fn started_event(self, ts: i64) -> LogEventView {
        self.event(EventKind::Started, ts)
    }

    /// The close event: it carries the bytes read so far on each side.
    pub open spec fn closed_event(self, ts: i64) -> LogEventView {
        LogEventView {
            bytes_from_to: self.bytes_from_to,
            bytes_to_from: self.bytes_to_from,
            ..self.event(EventKind::Closed, ts)
        }
    }

    pub open spec fn error_event(self, ts: i64, error: Seq<char>) -> LogEventView {
        LogEventView { error, ..self.event(EventKind::Error, ts) }
    }

    pub open spec fn timeout_event(self, ts: i64, direction: Direction) -> LogEventView {
        LogEventView { error: timeout_text(direction), ..self.event(EventKind::Timeout, ts) }
    }

    /// The bytes read so far in a direction.
    pub open spec fn bytes(self, direction: Direction) -> nat {
        match direction {
            Direction::ClientToRemote => self.bytes_from_to,
            Direction::RemoteToClient => self.bytes_to_from,
        }
    }

    /// This state after `count` more bytes were read in a direction.
    pub open spec fn counted(self, direction: Direction, count: nat) -> RelayView {
        match direction {
            Direction::ClientToRemote => RelayView {
                bytes_from_to: self.bytes_from_to + count,
                ..self
            },
            Direction::RemoteToClient => RelayView {
                bytes_to_from: self.bytes_to_from + count,
                ..self
            },
        }
    }

    pub open spec fn in_phase(self, phase: Phase) -> RelayView {
        RelayView { phase, ..self }
    }
}

/// The result of one step of a relay.
pub struct RelayStep {
    pub next: RelayView,
    pub events: Seq<LogEventView>,
    pub directive: Directive,
}

/// The transition function of a relay: the state after `input` was seen at
/// time `ts`, the events published for it and what to do next.
///
/// While dialing, only the two dial results apply. While relaying, a read of
/// bytes is counted and forwarded; every other report about a direction ends
/// the relay with the close event, after the timeout event where the
/// direction was idle for too long. In the two final phases nothing applies.
pub open spec fn relay_step(s: RelayView, input: RelayInputView, ts: i64) -> RelayStep {
    let ignored = RelayStep { next: s, events: Seq::empty(), directive: Directive::Ignore };
    let closing = s.in_phase(Phase::Closed);
    match s.phase {
        Phase::Dialing => match input {
            RelayInputView::DialSucceeded => RelayStep {
                next: s.in_phase(Phase::Relaying),
                events: seq![s.started_event(ts)],
                directive: Directive::StartCopying,
            },
            RelayInputView::DialFailed { error } => RelayStep {
                next: s.in_phase(Phase::DialFailed),
                events: seq![s.error_event(ts, error)],
                directive: Directive::Stop,
            },
            _ => ignored,
        },
        Phase::Relaying => match input {
            RelayInputView::Read { direction, count } => if count > 0 {
                RelayStep {
                    next: s.counted(direction, count),
                    events: Seq::empty(),
                    directive: Directive::Forward { direction, count: count as usize },
                }
            } else {
                RelayStep {
                    next: closing,
                    events: seq![s.closed_event(ts)],
                    directive: Directive::Stop,
                }
            },
            RelayInputView::ReadFailed { direction } => RelayStep {
                next: closing,
                events: seq![s.closed_event(ts)],
                directive: Directive::Stop,
            },
            RelayInputView::WriteFailed { direction } => RelayStep {
                next: closing,
                events: seq![s.closed_event(ts)],
                directive: Directive::Stop,
            },
            RelayInputView::IdleTimeout { direction } => RelayStep {
                next: closing,
                events: seq![s.timeout_event(ts, direction), s.closed_event(ts)],
                directive: Directive::Stop,
            },
            _ => ignored,
        },
        Phase::DialFailed => ignored,
        Phase::Closed => ignored,
    }
}

/// Whether a relay in state `s` can take `input`: a read must not carry the
/// byte counter of its direction past `u64::MAX`.
pub open spec fn relay_accepts(s: RelayView, input: RelayInputView) -> bool {
    s.phase == Phase::Relaying ==> (input matches RelayInputView::Read { direction, count }
        ==> s.bytes(direction) + count <= u64::MAX)
}

impl Relay {
    /// A relay for a connection of the rule `name`, which forwards
    /// `local_port` to `remote_address:remote_port`, accepted at time
    /// `accepted_at`. `client_addr` is the address of the peer, where it
    /// could be read.
    pub fn new(
        name: String,
        local_port: u16,
        remote_address: String,
        remote_port: u16,
        client_addr: Option<String>,
        accepted_at: i64,
    ) -> (r: Relay)
        ensures
            r@ == RelayView::initial(
                name@,
                local_port,
                remote_address@,
                remote_port,
                opt_text(client_addr),
                accepted_at,
            ),
    {
        Relay {
            name,
            local_port,
            remote_address,
            remote_port,
            client_addr,
            accepted_at,
            phase: Phase::Dialing,
            bytes_from_to: 0,
            bytes_to_from: 0,
        }
    }

    /// The time at which the connection was accepted.
    pub fn accepted_at(&self) -> (ts: i64)
        ensures
            ts == self@.accepted_at,
    {
        self.accepted_at
    }

    /// Where the relay stands.
    pub fn phase(&self) -> (p: Phase)
        ensures
            p == self@.phase,
    {
        self.phase
    }

    /// The bytes read so far from the client.
    pub fn bytes_from_to(&self) -> (n: u64)
        ensures
            n == self@.bytes_from_to,
    {
        self.bytes_from_to
    }

    /// The bytes read so far from the remote target.
    pub fn bytes_to_from(&self) -> (n: u64)
        ensures
            n == self@.bytes_to_from,
    {
        self.bytes_to_from
    }

    /// Whether `step` may be called with `input`.
    pub fn accepts(&self, input: &RelayInput) -> (ok: bool)
        ensures
            ok == relay_accepts(self@, input@),
    {
        match self.phase {
            Phase::Relaying => match input {
                RelayInput::Read { direction, count } => {
                    let so_far: u64 = match direction {
                        Direction::ClientToRemote => self.bytes_from_to,
                        Direction::RemoteToClient => self.bytes_to_from,
                    };
                    *count as u64 <= u64::MAX - so_far
                },
                _ => true,
            },
            _ => true,
        }
    }

    fn started(&self, ts: i64) -> (e: LogEvent)
        ensures
            e@ == self@.started_event(ts),
    {
        LogEvent::ConnectionStarted {
            ts,
            name: self.name.clone(),
            local_port: self.local_port,
            remote_address: self.remote_address.clone(),
            remote_port: self.remote_port,
            client_addr: copy_opt_text(&self.client_addr),
        }
    }

    fn closed(&self, ts: i64) -> (e: LogEvent)
        ensures
            e@ == self@.closed_event(ts),
    {
        LogEvent::ConnectionClosed {
            ts,
            name: self.name.clone(),
            local_port: self.local_port,
            remote_address: self.remote_address.clone(),
            remote_port: self.remote_port,
            client_addr: copy_opt_text(&self.client_addr),
            bytes_from_to: self.bytes_from_to,
            bytes_to_from: self.bytes_to_from,
        }
    }

    fn failed(&self, ts: i64, error: String) -> (e: LogEvent)
        ensures
            e@ == self@.error_event(ts, error@),
    {
        LogEvent::ConnectionError {
            ts,
            name: self.name.clone(),
            local_port: self.local_port,
            remote_address: self.remote_address.clone(),
            remote_port: self.remote_port,
            client_addr: copy_opt_text(&self.client_addr),
            error,
        }
    }

    fn timed_out(&self, ts: i64, direction: Direction) -> (e: LogEvent)
        ensures
            e@ == self@.timeout_event(ts, direction),
    {
        let error = match direction {
            Direction::ClientToRemote => "Connection timeout (client->remote)".to_owned(),
            Direction::RemoteToClient => "Connection timeout (remote->client)".to_owned(),
        };
        LogEvent::ConnectionTimeout {
            ts,
            name: self.name.clone(),
            local_port: self.local_port,
            remote_address: self.remote_address.clone(),
            remote_port: self.remote_port,
            client_addr: copy_opt_text(&self.client_addr),
            error,
        }
    }

    /// Ends the copying: the close event, after `first` where there is one.
    fn close(&mut self, ts: i64, first: Option<LogEvent>) -> (out: RelayOutput)
        ensures
            final(self)@ == old(self)@.in_phase(Phase::Closed),
            out.directive == Directive::Stop,
            event_views(out.events@) == match first {
                Some(e) => seq![e@, old(self)@.closed_event(ts)],
                None => seq![old(self)@.closed_event(ts)],
            },
    {
        let mut events: Vec<LogEvent> = Vec::new();
        match first {
            Some(e) => {
                events.push(e);
            },
            None => {},
        }
        events.push(self.closed(ts));
        self.phase = Phase::Closed;
        assert(event_views(events@) =~= match first {
            Some(e) => seq![e@, old(self)@.closed_event(ts)],
            None => seq![old(self)@.closed_event(ts)],
        });
        RelayOutput { events, directive: Directive::Stop }
    }

    /// Takes one report about the sockets, seen at time `ts`, and answers
    /// with the events to publish and what to do next, as [`relay_step`]
    /// says.
    pub fn step(&mut self, input: RelayInput, ts: i64) -> (out: RelayOutput)
        requires
            relay_accepts(old(self)@, input@),
        ensures
            relay_step(old(self)@, input@, ts) == (RelayStep {
                next: final(self)@,
                events: event_views(out.events@),
                directive: out.directive,
            }),
    {
        let ghost before = self@;
        let ghost want = relay_step(before, input@, ts);
        match self.phase {
            Phase::Dialing => match input {
                RelayInput::DialSucceeded => {
                    let mut events: Vec<LogEvent> = Vec::new();
                    events.push(self.started(ts));
                    self.phase = Phase::Relaying;
                    assert(event_views(events@) =~= want.events);
                    RelayOutput { events, directive: Directive::StartCopying }
                },
                RelayInput::DialFailed { error } => {
                    let mut events: Vec<LogEvent> = Vec::new();
                    events.push(self.failed(ts, error));
                    self.phase = Phase::DialFailed;
                    assert(event_views(events@) =~= want.events);
                    RelayOutput { events, directive: Directive::Stop }
                },
                _ => {
                    let events: Vec<LogEvent> = Vec::new();
                    assert(event_views(events@) =~= want.events);
                    RelayOutput { events, directive: Directive::Ignore }
                },
            },
            Phase::Relaying => match input {
                RelayInput::Read { direction, count } => {
                    if count > 0 {
                        match direction {
                            Direction::ClientToRemote => {
                                self.bytes_from_to = self.bytes_from_to + count as u64;
                            },
                            Direction::RemoteToClient => {
                                self.bytes_to_from = self.bytes_to_from + count as u64;
                            },
                        }
                        let events: Vec<LogEvent> = Vec::new();
                        assert(event_views(events@) =~= want.events);
                        RelayOutput { events, directive: Directive::Forward { direction, count } }
                    } else {
                        self.close(ts, None)
                    }
                },
                RelayInput::ReadFailed { direction } => self.close(ts, None),
                RelayInput::WriteFailed { direction } => self.close(ts, None),
                RelayInput::IdleTimeout { direction } => {
                    let first = self.timed_out(ts, direction);
                    self.close(ts, Some(first))
                },
                _ => {
                    let events: Vec<LogEvent> = Vec::new();
                    assert(event_views(events@) =~= want.events);
                    RelayOutput { events, directive: Directive::Ignore }
                },
            },
            _ => {
                let events: Vec<LogEvent> = Vec::new();
                assert(event_views(events@) =~= want.events);
                RelayOutput { events, directive: Directive::Ignore }
            },
        }
    }

    /// Takes one report about the sockets like [`Relay::step`], if the relay
    /// can take it. A read that would carry a byte counter past `u64::MAX` is
    /// refused, and the relay stays as it is.
    pub fn try_step(&mut self, input: RelayInput, ts: i64) -> (taken: Option<RelayOutput>)
        ensures
            match taken {
                Some(out) => relay_accepts(old(self)@, input@) && relay_step(
                    old(self)@,
                    input@,
                    ts,
                ) == (RelayStep {
                    next: final(self)@,
                    events: event_views(out.events@),
                    directive: out.directive,
                }),
                None => !relay_accepts(old(self)@, input@) && final(self)@ == old(self)@,
            },
    {
        if self.accepts(&input) {
            Some(self.step(input, ts))
        } else {
            None
        }
    }
}

} // verus!
