//! The writer that gathers rows into batches for the store.
//!
//! The writer subscribes to the lifecycle events, turns each into a row and
//! keeps the rows until a batch is due: when the batch has reached its
//! largest size, when the flush deadline has passed, or when the event
//! channel has closed. A batch that is due is handed out whole and in order,
//! and the writer forgets it whether or not the store then accepts it.
//!
//! The embedding program owns the channel, the clock and the store. It
//! reports what happened as a [`WriterInput`], with the reading of a clock
//! that never runs backwards, and writes the batch of the [`WriterOutput`],
//! where there is one, to the store in a single transaction.

use vstd::prelude::*;
use crate::events::{LogEvent, LogEventView};
use crate::store::{row_from_event, row_of, row_views, ConnectionRow, ConnectionRowView};

verus! {

/// Something that happened to the subscription or the clock of the writer.
#[derive(Debug)]
pub enum WriterInput {
    /// An event arrived.
    Event(LogEvent),
    /// The writer fell behind and the channel dropped this many events.
    Lagged(u64),
    /// The clock was read; it may have passed the deadline.
    Tick,
    /// The channel has closed: no event will arrive any more.
    BusClosed,
}

/// A `WriterInput` with its event read as a view.
pub enum WriterInputView {
    Event(LogEventView),
    Lagged(u64),
    Tick,
    BusClosed,
}

impl View for WriterInput {
    type V = WriterInputView;

    open spec fn view(&self) -> WriterInputView {
        match *self {
            WriterInput::Event(e) => WriterInputView::Event(e@),
            WriterInput::Lagged(n) => WriterInputView::Lagged(n),
            WriterInput::Tick => WriterInputView::Tick,
            WriterInput::BusClosed => WriterInputView::BusClosed,
        }
    }
}

/// The answer of the writer to one input.
#[derive(Debug)]
pub struct WriterOutput {
    /// The batch to write to the store now, if one is due. It is never empty.
    pub flush: Option<Vec<ConnectionRow>>,
    /// Whether the writer has stopped for good.
    pub stop: bool,
}

/// The state of the writer.
pub struct WriterView {
    /// The rows gathered since the last batch, oldest first.
    pub pending: Seq<ConnectionRowView>,
    /// The size at which a batch is due.
    pub max_count: nat,
    /// The time between the last batch, or the start, and the deadline.
    pub flush_every: nat,
    /// The time from which the pending rows are due.
    pub deadline: nat,
    /// Whether the channel has closed.
    pub stopped: bool,
}

/// One step of the writer.
pub struct WriterStep {
    pub next: WriterView,
    pub flush: Option<Seq<ConnectionRowView>>,
    pub stop: bool,
}

impl WriterView {
    pub open spec fn initial(max_count: nat, flush_every: nat, now: nat) -> WriterView {
        WriterView {
            pending: Seq::empty(),
            max_count,
            flush_every,
            deadline: now + flush_every,
            stopped: false,
        }
    }

    /// The most rows that a batch ever holds: `max_count`, and one where
    /// `max_count` is zero, since a row is due as soon as it has arrived.
    pub open spec fn capacity(self) -> nat {
        if self.max_count == 0 {
            1
        } else {
            self.max_count
        }
    }

    /// Between two steps the writer holds fewer rows than a full batch.
    pub open spec fn wf(self) -> bool {
        self.pending.len() < self.capacity()
    }

    /// The writer after a batch left at time `now`: nothing pending, and the
    /// deadline one interval after `now`.
    pub open spec fn flushed(self, now: nat) -> WriterView {
        WriterView { pending: Seq::empty(), deadline: now + self.flush_every, ..self }
    }
}

/// The batch to hand out for `rows`: none where there are no rows.
pub open spec fn batch_of(rows: Seq<ConnectionRowView>) -> Option<Seq<ConnectionRowView>> {
    if rows.len() > 0 {
        Some(rows)
    } else {
        None
    }
}

/// The transition function of the writer: its state after `input` was seen
/// at time `now`, and the batch that is due.
///
/// An event is recorded as a row behind the pending ones; if that fills the
/// batch, the batch is due at once and the deadline starts anew. A tick at or
/// after the deadline makes the pending rows due, if there are any, and
/// starts the deadline anew in any case; an earlier tick changes nothing.
/// Dropped events change nothing. When the channel closes, the pending rows
/// are due and the writer stops; a stopped writer ignores every input.
pub open spec fn writer_step(w: WriterView, input: WriterInputView, now: nat) -> WriterStep {
    if w.stopped {
        WriterStep { next: w, flush: None, stop: true }
    } else {
        match input {
            WriterInputView::Event(e) => {
                let grown = w.pending.push(row_of(e));
                if grown.len() >= w.max_count {
                    WriterStep { next: w.flushed(now), flush: Some(grown), stop: false }
                } else {
                    WriterStep {
                        next: WriterView { pending: grown, ..w },
                        flush: None,
                        stop: false,
                    }
                }
            },
            WriterInputView::Lagged(_) => WriterStep { next: w, flush: None, stop: false },
            WriterInputView::Tick => if now >= w.deadline {
                WriterStep { next: w.flushed(now), flush: batch_of(w.pending), stop: false }
            } else {
                WriterStep { next: w, flush: None, stop: false }
            },
            WriterInputView::BusClosed => WriterStep {
                next: WriterView { pending: Seq::empty(), stopped: true, ..w },
                flush: batch_of(w.pending),
                stop: true,
            },
        }
    }
}

/// Whether a writer in state `w` can take `input` at time `now`: where the
/// deadline may start anew, the new deadline must be a time that the clock
/// can show.
pub open spec fn writer_accepts(w: WriterView, input: WriterInputView, now: nat) -> bool {
    !w.stopped && (input is Event || input is Tick) ==> now + w.flush_every <= u64::MAX
}

/// The batching writer.
#[derive(Debug)]
pub struct BatchWriter {
    batch: Vec<ConnectionRow>,
    max_count: usize,
    flush_every: u64,
    deadline: u64,
    stopped: bool,
}

impl View for BatchWriter {
    type V = WriterView;

    closed spec fn view(&self) -> WriterView {
        WriterView {
            pending: row_views(self.batch@),
            max_count: self.max_count as nat,
            flush_every: self.flush_every as nat,
            deadline: self.deadline as nat,
            stopped: self.stopped,
        }
    }
}

/// The rows of an optional batch.
pub open spec fn batch_view(batch: Option<Vec<ConnectionRow>>) -> Option<Seq<ConnectionRowView>> {
    match batch {
        Some(rows) => Some(row_views(rows@)),
        None => None,
    }
}

impl BatchWriter {
    #[verifier::type_invariant]
    spec fn inv(self) -> bool {
        self@.wf()
    }

    /// A writer that starts at time `now` with nothing pending. A batch is
    /// due when it holds `max_count` rows, or `flush_every` after `now`.
    pub fn new(max_count: usize, flush_every: u64, now: u64) -> (w: BatchWriter)
        requires
            now + flush_every <= u64::MAX,
        ensures
            w@ == WriterView::initial(max_count as nat, flush_every as nat, now as nat),
            w@.wf(),
    {
        let w = BatchWriter {
            batch: Vec::new(),
            max_count,
            flush_every,
            deadline: now + flush_every,
            stopped: false,
        };
        assert(w@.pending =~= Seq::empty());
        w
    }

    /// The time from which the pending rows are due.
    pub fn deadline(&self) -> (at: u64)
        ensures
            at == self@.deadline,
    {
        self.deadline
    }

    /// The number of rows that wait for their batch.
    pub fn pending(&self) -> (count: usize)
        ensures
            count == self@.pending.len(),
            self@.wf(),
    {
        proof {
            use_type_invariant(self);
        }
        self.batch.len()
    }

    /// Whether the channel has closed and the writer has stopped.
    pub fn is_stopped(&self) -> (stopped: bool)
        ensures
            stopped == self@.stopped,
    {
        self.stopped
    }

    /// Whether `step` may be called with `input` at time `now`.
    pub fn accepts(&self, input: &WriterInput, now: u64) -> (ok: bool)
        ensures
            ok == writer_accepts(self@, input@, now as nat),
    {
        if self.stopped {
            true
        } else {
            match input {
                WriterInput::Event(_) => now <= u64::MAX - self.flush_every,
                WriterInput::Tick => now <= u64::MAX - self.flush_every,
                _ => true,
            }
        }
    }

    /// Takes one input, seen at time `now`, and answers with the batch that
    /// is due, as [`writer_step`] says.
    pub fn step(&mut self, input: WriterInput, now: u64) -> (out: WriterOutput)
        requires
            writer_accepts(old(self)@, input@, now as nat),
        ensures
            old(self)@.wf(),
            final(self)@.wf(),
            writer_step(old(self)@, input@, now as nat) == (WriterStep {
                next: final(self)@,
                flush: batch_view(out.flush),
                stop: out.stop,
            }),
    {
        proof {
            use_type_invariant(&*self);
        }
        if self.stopped {
            return WriterOutput { flush: None, stop: true };
        }
        match input {
            WriterInput::Event(e) => {
                let row = row_from_event(e);
                let ghost held = self.batch@;
                if self.batch.len() + 1 >= self.max_count {
                    let mut full: Vec<ConnectionRow> = Vec::new();
                    core::mem::swap(&mut full, &mut self.batch);
                    full.push(row);
                    self.deadline = now + self.flush_every;
                    assert(row_views(full@) =~= row_views(held).push(row@));
                    assert(row_views(self.batch@) =~= Seq::empty());
                    WriterOutput { flush: Some(full), stop: false }
                } else {
                    let mut grown: Vec<ConnectionRow> = Vec::new();
                    core::mem::swap(&mut grown, &mut self.batch);
                    grown.push(row);
                    core::mem::swap(&mut grown, &mut self.batch);
                    assert(row_views(self.batch@) =~= row_views(held).push(row@));
                    WriterOutput { flush: None, stop: false }
                }
            },
            WriterInput::Lagged(_) => WriterOutput { flush: None, stop: false },
            WriterInput::Tick => {
                if now >= self.deadline {
                    let mut due: Vec<ConnectionRow> = Vec::new();
                    core::mem::swap(&mut due, &mut self.batch);
                    self.deadline = now + self.flush_every;
                    assert(row_views(self.batch@) =~= Seq::empty());
                    if due.len() > 0 {
                        WriterOutput { flush: Some(due), stop: false }
                    } else {
                        WriterOutput { flush: None, stop: false }
                    }
                } else {
                    WriterOutput { flush: None, stop: false }
                }
            },
            WriterInput::BusClosed => {
                let mut due: Vec<ConnectionRow> = Vec::new();
                core::mem::swap(&mut due, &mut self.batch);
                self.stopped = true;
                assert(row_views(self.batch@) =~= Seq::empty());
                if due.len() > 0 {
                    WriterOutput { flush: Some(due), stop: true }
                } else {
                    WriterOutput { flush: None, stop: true }
                }
            },
        }
    }

    /// Takes one input like [`BatchWriter::step`], if the writer can take it
    /// at time `now`. An input with which the deadline could start anew at a
    /// time beyond `u64::MAX` is refused, and the writer stays as it is.
    pub fn try_step(&mut self, input: WriterInput, now: u64) -> (taken: Option<WriterOutput>)
        ensures
            match taken {
                Some(out) => writer_accepts(old(self)@, input@, now as nat) && writer_step(
                    old(self)@,
                    input@,
                    now as nat,
                ) == (WriterStep {
                    next: final(self)@,
                    flush: batch_view(out.flush),
                    stop: out.stop,
                }),
                None => !writer_accepts(old(self)@, input@, now as nat) && final(self)@ == old(
                    self,
                )@,
            },
    {
        if self.accepts(&input, now) {
            Some(self.step(input, now))
        } else {
            None
        }
    }
}

} // verus!
