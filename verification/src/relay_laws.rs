//! What holds of every run of a relay.
//!
//! A run is the sequence of inputs that a relay is given, each with the time
//! at which it was seen. The laws below are stated over [`relay_run`], the
//! events published during a run, and [`relay_end`], the state it ends in.

use vstd::prelude::*;
use crate::events::{count_kind, EventKind, LogEventView};
use crate::relay::{relay_step, Direction, Phase, RelayInputView, RelayView};

verus! {

/// An input together with the time at which it was seen.
pub struct TimedInput {
    pub input: RelayInputView,
    pub ts: i64,
}

/// The events published while a relay in state `s` takes `inputs` in order.
pub open spec fn relay_run(s: RelayView, inputs: Seq<TimedInput>) -> Seq<LogEventView>
    decreases inputs.len(),
{
    if inputs.len() == 0 {
        Seq::empty()
    } else {
        let first = relay_step(s, inputs[0].input, inputs[0].ts);
        first.events + relay_run(first.next, inputs.drop_first())
    }
}

/// The state of a relay that started in `s` and took `inputs` in order.
pub open spec fn relay_end(s: RelayView, inputs: Seq<TimedInput>) -> RelayView
    decreases inputs.len(),
{
    if inputs.len() == 0 {
        s
    } else {
        relay_end(relay_step(s, inputs[0].input, inputs[0].ts).next, inputs.drop_first())
    }
}

/// A read that returned at least one byte.
pub open spec fn is_data_read(input: RelayInputView) -> bool {
    input matches RelayInputView::Read { count, .. } && count > 0
}

/// An input that ends the copying: the end of a stream, a failed read or
/// write, or an idle timeout.
pub open spec fn ends_copying(input: RelayInputView) -> bool {
    match input {
        RelayInputView::Read { count, .. } => count == 0,
        RelayInputView::ReadFailed { .. } => true,
        RelayInputView::WriteFailed { .. } => true,
        RelayInputView::IdleTimeout { .. } => true,
        _ => false,
    }
}

/// The bytes that the reads among `inputs` returned in a direction.
pub open spec fn bytes_read(inputs: Seq<TimedInput>, direction: Direction) -> nat
    decreases inputs.len(),
{
    if inputs.len() == 0 {
        0
    } else {
        bytes_read(inputs.drop_last(), direction) + match inputs.last().input {
            RelayInputView::Read { direction: d, count } => if d == direction {
                count
            } else {
                0nat
            },
            _ => 0nat,
        }
    }
}

/// The events that end a relay on `last`, seen at `ts`: the timeout event of
/// the idle direction where there is one, then the close event.
pub open spec fn closing_events(s: RelayView, last: RelayInputView, ts: i64) -> Seq<LogEventView> {
    match last {
        RelayInputView::IdleTimeout { direction } => seq![
            s.timeout_event(ts, direction),
            s.closed_event(ts),
        ],
        _ => seq![s.closed_event(ts)],
    }
}

/// A run in two parts publishes the events of the first part, then those of
/// the second part from the state that the first part ended in.
pub proof fn lemma_run_split(s: RelayView, a: Seq<TimedInput>, b: Seq<TimedInput>)
    ensures
        relay_run(s, a + b) == relay_run(s, a) + relay_run(relay_end(s, a), b),
        relay_end(s, a + b) == relay_end(relay_end(s, a), b),
    decreases a.len(),
{
    if a.len() == 0 {
        assert(a + b =~= b);
        assert(relay_run(s, a + b) =~= relay_run(s, a) + relay_run(relay_end(s, a), b));
    } else {
        let first = relay_step(s, a[0].input, a[0].ts);
        assert((a + b)[0] == a[0]);
        assert((a + b).drop_first() =~= a.drop_first() + b);
        lemma_run_split(first.next, a.drop_first(), b);
        assert(relay_run(s, a + b) =~= relay_run(s, a) + relay_run(relay_end(s, a), b));
    }
}

/// A run of one input is one step.
pub proof fn lemma_run_one(s: RelayView, only: TimedInput)
    ensures
        relay_run(s, seq![only]) == relay_step(s, only.input, only.ts).events,
        relay_end(s, seq![only]) == relay_step(s, only.input, only.ts).next,
{
    reveal_with_fuel(relay_run, 2);
    reveal_with_fuel(relay_end, 2);
    let one = seq![only];
    assert(one.drop_first() =~= Seq::<TimedInput>::empty());
    assert(relay_run(s, one) =~= relay_step(s, only.input, only.ts).events);
}

/// Adding one event to a sequence adds one to the count of its kind and
/// leaves the other counts as they were.
pub proof fn lemma_count_push(events: Seq<LogEventView>, e: LogEventView, kind: EventKind)
    ensures
        count_kind(events.push(e), kind) == count_kind(events, kind) + if e.kind == kind {
            1nat
        } else {
            0nat
        },
{
    assert(events.push(e).drop_last() =~= events);
}

/// Once a relay has ended, whether on a failed dial or on the close event, no
/// input changes it or publishes anything.
pub proof fn law_ended_relay_is_silent(s: RelayView, inputs: Seq<TimedInput>)
    requires
        s.phase == Phase::DialFailed || s.phase == Phase::Closed,
    ensures
        relay_run(s, inputs) == Seq::<LogEventView>::empty(),
        relay_end(s, inputs) == s,
    decreases inputs.len(),
{
    if inputs.len() > 0 {
        law_ended_relay_is_silent(s, inputs.drop_first());
        assert(relay_run(s, inputs) =~= Seq::<LogEventView>::empty());
    }
}

/// While reads return bytes nothing is published, and the counters grow by
/// exactly the bytes read on each side.
pub proof fn law_copying_counts_every_byte(s: RelayView, reads: Seq<TimedInput>)
    requires
        s.phase == Phase::Relaying,
        forall|i: int| 0 <= i < reads.len() ==> is_data_read(#[trigger] reads[i].input),
    ensures
        relay_run(s, reads) == Seq::<LogEventView>::empty(),
        relay_end(s, reads) == (RelayView {
            bytes_from_to: s.bytes_from_to + bytes_read(reads, Direction::ClientToRemote),
            bytes_to_from: s.bytes_to_from + bytes_read(reads, Direction::RemoteToClient),
            ..s
        }),
    decreases reads.len(),
{
    if reads.len() > 0 {
        let init = reads.drop_last();
        let last = reads.last();
        assert(reads =~= init + seq![last]);
        assert forall|i: int| 0 <= i < init.len() implies is_data_read(
            #[trigger] init[i].input,
        ) by {
            assert(init[i] == reads[i]);
        }
        law_copying_counts_every_byte(s, init);
        lemma_run_split(s, init, seq![last]);
        let mid = relay_end(s, init);
        assert(is_data_read(reads[reads.len() - 1].input));
        lemma_run_one(mid, last);
        assert(relay_run(s, reads) =~= Seq::<LogEventView>::empty());
    }
}

/// A connection whose dial succeeds publishes exactly its start event, then,
/// when either direction ends, the timeout event if the direction was idle
/// and the close event, whose counters are the bytes that the reads returned
/// on each side. Whatever is reported after that publishes nothing.
pub proof fn law_relayed_connection(
    s: RelayView,
    dialed_at: i64,
    reads: Seq<TimedInput>,
    last: TimedInput,
    rest: Seq<TimedInput>,
)
    requires
        s.phase == Phase::Dialing,
        s.bytes_from_to == 0,
        s.bytes_to_from == 0,
        forall|i: int| 0 <= i < reads.len() ==> is_data_read(#[trigger] reads[i].input),
        ends_copying(last.input),
    ensures
        ({
            let dial = TimedInput { input: RelayInputView::DialSucceeded, ts: dialed_at };
            let inputs = seq![dial] + reads + seq![last] + rest;
            let at_end = RelayView {
                phase: Phase::Closed,
                bytes_from_to: bytes_read(reads, Direction::ClientToRemote),
                bytes_to_from: bytes_read(reads, Direction::RemoteToClient),
                ..s
            };
            let events = relay_run(s, inputs);
            &&& relay_end(s, inputs) == at_end
            &&& events == seq![s.started_event(dialed_at)] + closing_events(
                at_end,
                last.input,
                last.ts,
            )
            &&& count_kind(events, EventKind::Started) == 1
            &&& count_kind(events, EventKind::Closed) == 1
            &&& count_kind(events, EventKind::Error) == 0
            &&& count_kind(events, EventKind::Timeout) == if last.input is IdleTimeout {
                1nat
            } else {
                0nat
            }
            &&& events.last().kind == EventKind::Closed
            &&& events.last().bytes_from_to == bytes_read(reads, Direction::ClientToRemote)
            &&& events.last().bytes_to_from == bytes_read(reads, Direction::RemoteToClient)
        }),
{
    let dial = TimedInput { input: RelayInputView::DialSucceeded, ts: dialed_at };
    let inputs = seq![dial] + reads + seq![last] + rest;
    let relaying = s.in_phase(Phase::Relaying);
    let copied = RelayView {
        bytes_from_to: bytes_read(reads, Direction::ClientToRemote),
        bytes_to_from: bytes_read(reads, Direction::RemoteToClient),
        ..relaying
    };
    let at_end = copied.in_phase(Phase::Closed);
    let started = s.started_event(dialed_at);
    let closing = closing_events(at_end, last.input, last.ts);

    // The dial.
    let d = seq![dial];
    lemma_run_one(s, dial);
    assert(relay_run(s, d) =~= seq![started]);
    assert(relay_end(s, d) == relaying);
    // The copying.
    law_copying_counts_every_byte(relaying, reads);
    assert(relay_end(relaying, reads) == copied);
    // The end of the copying.
    let l = seq![last];
    lemma_run_one(copied, last);
    assert(relay_end(copied, l) == at_end);
    assert(relay_step(copied, last.input, last.ts).events =~= closing);
    // What follows.
    law_ended_relay_is_silent(at_end, rest);

    lemma_run_split(s, d, reads);
    lemma_run_split(s, d + reads, l);
    lemma_run_split(s, d + reads + l, rest);
    let events = relay_run(s, inputs);
    assert(events =~= seq![started] + closing);

    let none = Seq::<LogEventView>::empty();
    let closed = at_end.closed_event(last.ts);
    assert forall|kind: EventKind| count_kind(none, kind) == 0 by {}
    match last.input {
        RelayInputView::IdleTimeout { direction } => {
            let timeout = at_end.timeout_event(last.ts, direction);
            assert(events =~= none.push(started).push(timeout).push(closed));
            assert forall|kind: EventKind| #[trigger]
                count_kind(events, kind) == (if started.kind == kind {
                    1nat
                } else {
                    0nat
                }) + (if timeout.kind == kind {
                    1nat
                } else {
                    0nat
                }) + (if closed.kind == kind {
                    1nat
                } else {
                    0nat
                }) by {
                lemma_count_push(none, started, kind);
                lemma_count_push(none.push(started), timeout, kind);
                lemma_count_push(none.push(started).push(timeout), closed, kind);
            }
        },
        _ => {
            assert(events =~= none.push(started).push(closed));
            assert forall|kind: EventKind| #[trigger]
                count_kind(events, kind) == (if started.kind == kind {
                    1nat
                } else {
                    0nat
                }) + (if closed.kind == kind {
                    1nat
                } else {
                    0nat
                }) by {
                lemma_count_push(none, started, kind);
                lemma_count_push(none.push(started), closed, kind);
            }
        },
    }
    assert(count_kind(events, EventKind::Started) == 1);
    assert(count_kind(events, EventKind::Closed) == 1);
    assert(count_kind(events, EventKind::Error) == 0);
}

/// A connection whose dial fails publishes exactly one error event, with the
/// text of the failure, and never a start or a close event, whatever is
/// reported afterwards.
pub proof fn law_failed_dial(
    s: RelayView,
    error: Seq<char>,
    failed_at: i64,
    rest: Seq<TimedInput>,
)
    requires
        s.phase == Phase::Dialing,
    ensures
        ({
            let dial = TimedInput { input: RelayInputView::DialFailed { error }, ts: failed_at };
            let events = relay_run(s, seq![dial] + rest);
            &&& events == seq![s.error_event(failed_at, error)]
            &&& relay_end(s, seq![dial] + rest).phase == Phase::DialFailed
            &&& count_kind(events, EventKind::Error) == 1
            &&& count_kind(events, EventKind::Started) == 0
            &&& count_kind(events, EventKind::Closed) == 0
            &&& count_kind(events, EventKind::Timeout) == 0
        }),
{
    let dial = TimedInput { input: RelayInputView::DialFailed { error }, ts: failed_at };
    let d = seq![dial];
    let failed = s.in_phase(Phase::DialFailed);
    let e = s.error_event(failed_at, error);
    lemma_run_one(s, dial);
    assert(relay_run(s, d) =~= seq![e]);
    assert(relay_end(s, d) == failed);
    law_ended_relay_is_silent(failed, rest);
    lemma_run_split(s, d, rest);
    let events = relay_run(s, d + rest);
    let none = Seq::<LogEventView>::empty();
    assert(events =~= none.push(e));
    assert forall|kind: EventKind| #[trigger]
        count_kind(events, kind) == (if e.kind == kind {
            1nat
        } else {
            0nat
        }) by {
        lemma_count_push(none, e, kind);
    }
    assert(count_kind(events, EventKind::Error) == 1);
    assert(count_kind(events, EventKind::Started) == 0);
}

/// When a direction of a relaying connection stays idle past the timeout,
/// exactly one timeout event is published, for that direction, and the close
/// event follows it at once; nothing is published after that.
pub proof fn law_idle_timeout(
    s: RelayView,
    direction: Direction,
    ts: i64,
    rest: Seq<TimedInput>,
)
    requires
        s.phase == Phase::Relaying,
    ensures
        ({
            let idle = TimedInput { input: RelayInputView::IdleTimeout { direction }, ts };
            let events = relay_run(s, seq![idle] + rest);
            &&& events == seq![s.timeout_event(ts, direction), s.closed_event(ts)]
            &&& count_kind(events, EventKind::Timeout) == 1
            &&& count_kind(events, EventKind::Closed) == 1
            &&& events[1].bytes_from_to == s.bytes_from_to
            &&& events[1].bytes_to_from == s.bytes_to_from
        }),
{
    let idle = TimedInput { input: RelayInputView::IdleTimeout { direction }, ts };
    let d = seq![idle];
    let timeout = s.timeout_event(ts, direction);
    let closed = s.closed_event(ts);
    lemma_run_one(s, idle);
    assert(relay_run(s, d) =~= seq![timeout, closed]);
    law_ended_relay_is_silent(s.in_phase(Phase::Closed), rest);
    lemma_run_split(s, d, rest);
    let events = relay_run(s, d + rest);
    let none = Seq::<LogEventView>::empty();
    assert(events =~= none.push(timeout).push(closed));
    lemma_count_push(none, timeout, EventKind::Timeout);
    lemma_count_push(none.push(timeout), closed, EventKind::Timeout);
    lemma_count_push(none, timeout, EventKind::Closed);
    lemma_count_push(none.push(timeout), closed, EventKind::Closed);
}

/// The kinds of a sequence of events, in order.
pub open spec fn event_kinds(events: Seq<LogEventView>) -> Seq<EventKind> {
    events.map_values(|e: LogEventView| e.kind)
}

/// What a relaying connection can still publish, by the phase it ends in:
/// nothing while it goes on relaying; else the close event, alone or behind
/// one timeout event.
pub open spec fn is_rest_of_relaying(kinds: Seq<EventKind>, end: Phase) -> bool {
    if end == Phase::Relaying {
        kinds == Seq::<EventKind>::empty()
    } else {
        &&& end == Phase::Closed
        &&& kinds == seq![EventKind::Closed] || kinds == seq![
            EventKind::Timeout,
            EventKind::Closed,
        ]
    }
}

/// What a connection can publish in its whole life, by the phase it ends in:
/// nothing while it is dialing; one error event when the dial failed; else
/// the start event, followed by what a relaying connection publishes.
pub open spec fn is_life_of_connection(kinds: Seq<EventKind>, end: Phase) -> bool {
    match end {
        Phase::Dialing => kinds == Seq::<EventKind>::empty(),
        Phase::DialFailed => kinds == seq![EventKind::Error],
        _ => kinds.len() > 0 && kinds[0] == EventKind::Started && is_rest_of_relaying(
            kinds.skip(1),
            end,
        ),
    }
}

/// Whatever a relaying connection is given, it publishes nothing until it
/// ends, and when it ends it publishes the close event, behind one timeout
/// event or alone.
pub proof fn law_relaying_ends_with_one_close(s: RelayView, inputs: Seq<TimedInput>)
    requires
        s.phase == Phase::Relaying,
    ensures
        is_rest_of_relaying(event_kinds(relay_run(s, inputs)), relay_end(s, inputs).phase),
    decreases inputs.len(),
{
    let events = relay_run(s, inputs);
    if inputs.len() == 0 {
        assert(event_kinds(events) =~= Seq::<EventKind>::empty());
    } else {
        let first = relay_step(s, inputs[0].input, inputs[0].ts);
        let rest = inputs.drop_first();
        if first.next.phase == Phase::Relaying {
            assert(first.events =~= Seq::<LogEventView>::empty());
            law_relaying_ends_with_one_close(first.next, rest);
            assert(events =~= relay_run(first.next, rest));
        } else {
            law_ended_relay_is_silent(first.next, rest);
            assert(events =~= first.events);
            if inputs[0].input is IdleTimeout {
                assert(event_kinds(events) =~= seq![EventKind::Timeout, EventKind::Closed]);
            } else {
                assert(event_kinds(events) =~= seq![EventKind::Closed]);
            }
        }
    }
}

/// Whatever a connection is given, from its accept on, it publishes one of
/// five things, by the phase it ends in: nothing yet; one error event, for a
/// failed dial; the start event; the start event and the close event; or the
/// start event, one timeout event and the close event.
pub proof fn law_life_of_every_connection(s: RelayView, inputs: Seq<TimedInput>)
    requires
        s.phase == Phase::Dialing,
    ensures
        is_life_of_connection(event_kinds(relay_run(s, inputs)), relay_end(s, inputs).phase),
    decreases inputs.len(),
{
    let events = relay_run(s, inputs);
    if inputs.len() == 0 {
        assert(event_kinds(events) =~= Seq::<EventKind>::empty());
    } else {
        let first = relay_step(s, inputs[0].input, inputs[0].ts);
        let rest = inputs.drop_first();
        match first.next.phase {
            Phase::Dialing => {
                assert(first.next == s);
                assert(first.events =~= Seq::<LogEventView>::empty());
                law_life_of_every_connection(s, rest);
                assert(events =~= relay_run(s, rest));
            },
            Phase::DialFailed => {
                law_ended_relay_is_silent(first.next, rest);
                assert(events =~= first.events);
                assert(event_kinds(events) =~= seq![EventKind::Error]);
            },
            _ => {
                assert(first.next.phase == Phase::Relaying);
                law_relaying_ends_with_one_close(first.next, rest);
                let later = relay_run(first.next, rest);
                assert(events =~= first.events + later);
                assert(event_kinds(events)[0] == EventKind::Started);
                assert(event_kinds(events).skip(1) =~= event_kinds(later));
            },
        }
    }
}

/// No connection ever publishes two events of one kind. It publishes the
/// close event exactly if it ends closed, and an error event exactly if its
/// dial failed, and then it publishes nothing else.
pub proof fn law_no_event_twice(s: RelayView, inputs: Seq<TimedInput>, kind: EventKind)
    requires
        s.phase == Phase::Dialing,
    ensures
        count_kind(relay_run(s, inputs), kind) <= 1,
        count_kind(relay_run(s, inputs), EventKind::Closed) == if relay_end(s, inputs).phase
            == Phase::Closed {
            1nat
        } else {
            0nat
        },
        count_kind(relay_run(s, inputs), EventKind::Error) == if relay_end(s, inputs).phase
            == Phase::DialFailed {
            1nat
        } else {
            0nat
        },
        relay_end(s, inputs).phase == Phase::DialFailed ==> relay_run(s, inputs).len() == 1,
        count_kind(relay_run(s, inputs), EventKind::Started) == if relay_end(s, inputs).phase
            == Phase::Relaying || relay_end(s, inputs).phase == Phase::Closed {
            1nat
        } else {
            0nat
        },
{
    let events = relay_run(s, inputs);
    let kinds = event_kinds(events);
    let none = Seq::<LogEventView>::empty();
    law_life_of_every_connection(s, inputs);
    assert(kinds.len() == events.len());
    assert forall|i: int| 0 <= i < events.len() implies (#[trigger] events[i]).kind == kinds[i] by {}
    let rest = kinds.skip(1);
    if events.len() > 0 {
        assert(rest.len() == kinds.len() - 1);
    }
    if events.len() > 1 {
        assert(rest[0] == kinds[1]);
    }
    if events.len() > 2 {
        assert(rest[1] == kinds[2]);
    }
    match relay_end(s, inputs).phase {
        Phase::Dialing => {
            assert(kinds.len() == 0);
        },
        Phase::DialFailed => {
            assert(kinds.len() == 1 && kinds[0] == EventKind::Error);
        },
        Phase::Relaying => {
            assert(rest.len() == 0);
            assert(kinds.len() == 1 && kinds[0] == EventKind::Started);
        },
        Phase::Closed => {
            if rest == seq![EventKind::Closed] {
                assert(rest.len() == 1 && rest[0] == EventKind::Closed);
                assert(kinds.len() == 2);
            } else {
                assert(rest == seq![EventKind::Timeout, EventKind::Closed]);
                assert(rest.len() == 2 && rest[0] == EventKind::Timeout && rest[1]
                    == EventKind::Closed);
                assert(kinds.len() == 3);
            }
        },
    }
    assert forall|k: EventKind| count_kind(none, k) == 0 by {}
    assert forall|k: EventKind| #[trigger]
        count_kind(events, k) == (if events.len() > 0 && events[0].kind == k {
            1nat
        } else {
            0nat
        }) + (if events.len() > 1 && events[1].kind == k {
            1nat
        } else {
            0nat
        }) + (if events.len() > 2 && events[2].kind == k {
            1nat
        } else {
            0nat
        }) by {
        assert(events.len() <= 3);
        if events.len() == 0 {
            assert(events =~= none);
        } else if events.len() == 1 {
            assert(events =~= none.push(events[0]));
            lemma_count_push(none, events[0], k);
        } else if events.len() == 2 {
            assert(events =~= none.push(events[0]).push(events[1]));
            lemma_count_push(none, events[0], k);
            lemma_count_push(none.push(events[0]), events[1], k);
        } else {
            assert(events =~= none.push(events[0]).push(events[1]).push(events[2]));
            lemma_count_push(none, events[0], k);
            lemma_count_push(none.push(events[0]), events[1], k);
            lemma_count_push(none.push(events[0]).push(events[1]), events[2], k);
        }
    }
    assert(count_kind(events, kind) <= 1);
    assert(count_kind(events, EventKind::Closed) <= 1);
    assert(count_kind(events, EventKind::Error) <= 1);
    assert(count_kind(events, EventKind::Started) <= 1);
}

} // verus!
