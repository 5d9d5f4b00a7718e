//! What holds of every run of the batching writer.
//!
//! A run is the sequence of inputs that the writer is given, each with the
//! reading of the clock at which it was seen. The laws are stated over
//! [`writer_run`], the batches handed out during a run, and [`writer_end`],
//! the state it ends in.

use vstd::prelude::*;
use crate::store::{counts_only_when_closed, row_of, ConnectionRowView};
use crate::writer::{batch_of, writer_step, WriterInputView, WriterView};

verus! {

/// An input together with the reading of the clock at which it was seen.
pub struct TimedWriterInput {
    pub input: WriterInputView,
    pub now: nat,
}

/// The batch of a step as a sequence of at most one batch.
pub open spec fn batches_of(flush: Option<Seq<ConnectionRowView>>) -> Seq<Seq<ConnectionRowView>> {
    match flush {
        Some(batch) => seq![batch],
        None => Seq::empty(),
    }
}

/// The batches handed out while a writer in state `w` takes `inputs` in order.
pub open spec fn writer_run(w: WriterView, inputs: Seq<TimedWriterInput>) -> Seq<
    Seq<ConnectionRowView>,
>
    decreases inputs.len(),
{
    if inputs.len() == 0 {
        Seq::empty()
    } else {
        let first = writer_step(w, inputs[0].input, inputs[0].now);
        batches_of(first.flush) + writer_run(first.next, inputs.drop_first())
    }
}

/// The state of a writer that started in `w` and took `inputs` in order.
pub open spec fn writer_end(w: WriterView, inputs: Seq<TimedWriterInput>) -> WriterView
    decreases inputs.len(),
{
    if inputs.len() == 0 {
        w
    } else {
        writer_end(
            writer_step(w, inputs[0].input, inputs[0].now).next,
            inputs.drop_first(),
        )
    }
}

/// The rows of the events among `inputs`, in the order of their arrival.
pub open spec fn rows_arrived(inputs: Seq<TimedWriterInput>) -> Seq<ConnectionRowView>
    decreases inputs.len(),
{
    if inputs.len() == 0 {
        Seq::empty()
    } else {
        (match inputs[0].input {
            WriterInputView::Event(e) => seq![row_of(e)],
            _ => Seq::empty(),
        }) + rows_arrived(inputs.drop_first())
    }
}

/// The rows of a sequence of batches, one batch after the other.
pub open spec fn rows_of_batches(batches: Seq<Seq<ConnectionRowView>>) -> Seq<ConnectionRowView>
    decreases batches.len(),
{
    if batches.len() == 0 {
        Seq::empty()
    } else {
        batches[0] + rows_of_batches(batches.drop_first())
    }
}

/// The rows that the writer holds at the instant at which it checks whether a
/// batch is due: with an event, the pending rows and the row of the event.
pub open spec fn held_at_check(w: WriterView, input: WriterInputView) -> Seq<ConnectionRowView> {
    match input {
        WriterInputView::Event(e) => w.pending.push(row_of(e)),
        _ => w.pending,
    }
}

/// A run in two parts hands out the batches of the first part, then those of
/// the second part from the state that the first part ended in.
pub proof fn lemma_writer_run_split(
    w: WriterView,
    a: Seq<TimedWriterInput>,
    b: Seq<TimedWriterInput>,
)
    ensures
        writer_run(w, a + b) == writer_run(w, a) + writer_run(writer_end(w, a), b),
        writer_end(w, a + b) == writer_end(writer_end(w, a), b),
    decreases a.len(),
{
    if a.len() == 0 {
        assert(a + b =~= b);
        assert(writer_run(w, a + b) =~= writer_run(w, a) + writer_run(writer_end(w, a), b));
    } else {
        let first = writer_step(w, a[0].input, a[0].now);
        assert((a + b)[0] == a[0]);
        assert((a + b).drop_first() =~= a.drop_first() + b);
        lemma_writer_run_split(first.next, a.drop_first(), b);
        assert(writer_run(w, a + b) =~= writer_run(w, a) + writer_run(writer_end(w, a), b));
    }
}

/// A run of one input is one step.
pub proof fn lemma_writer_run_one(w: WriterView, only: TimedWriterInput)
    ensures
        writer_run(w, seq![only]) == batches_of(writer_step(w, only.input, only.now).flush),
        writer_end(w, seq![only]) == writer_step(w, only.input, only.now).next,
{
    reveal_with_fuel(writer_run, 2);
    reveal_with_fuel(writer_end, 2);
    let one = seq![only];
    assert(one.drop_first() =~= Seq::<TimedWriterInput>::empty());
    assert(writer_run(w, one) =~= batches_of(writer_step(w, only.input, only.now).flush));
}

/// At the instant at which the writer checks whether a batch is due, it
/// never holds more rows than a full batch: at most `max_count`, where
/// `max_count` is at least one. The batch that it hands out is never empty
/// and never larger than that, and afterwards fewer rows than a full batch
/// are left.
pub proof fn law_step_keeps_batch_bounded(w: WriterView, input: WriterInputView, now: nat)
    requires
        w.wf(),
    ensures
        held_at_check(w, input).len() <= w.capacity(),
        w.max_count >= 1 ==> held_at_check(w, input).len() <= w.max_count,
        writer_step(w, input, now).next.wf(),
        writer_step(w, input, now).next.max_count == w.max_count,
        writer_step(w, input, now).flush matches Some(batch) ==> 0 < batch.len() <= w.capacity(),
{
}

/// Through every run the writer holds fewer rows than a full batch between
/// two steps, and every batch that it hands out holds at least one row and
/// at most a full batch.
pub proof fn law_run_keeps_batch_bounded(w: WriterView, inputs: Seq<TimedWriterInput>)
    requires
        w.wf(),
    ensures
        writer_end(w, inputs).wf(),
        writer_end(w, inputs).max_count == w.max_count,
        forall|i: int|
            0 <= i < writer_run(w, inputs).len() ==> 0 < (#[trigger] writer_run(
                w,
                inputs,
            )[i]).len() <= w.capacity(),
    decreases inputs.len(),
{
    if inputs.len() > 0 {
        let first = writer_step(w, inputs[0].input, inputs[0].now);
        law_step_keeps_batch_bounded(w, inputs[0].input, inputs[0].now);
        law_run_keeps_batch_bounded(first.next, inputs.drop_first());
        let head = batches_of(first.flush);
        let tail = writer_run(first.next, inputs.drop_first());
        assert forall|i: int| 0 <= i < writer_run(w, inputs).len() implies 0 < (
        #[trigger] writer_run(w, inputs)[i]).len() <= w.capacity() by {
            if i >= head.len() {
                assert(writer_run(w, inputs)[i] == tail[i - head.len()]);
            }
        }
    }
}

/// While the channel stays open no row is lost, repeated or reordered: the
/// rows that were pending at the start, followed by the rows of the events
/// that arrived, are the rows of the batches handed out, in order, followed
/// by the rows still pending at the end.
pub proof fn law_open_channel_loses_no_row(w: WriterView, inputs: Seq<TimedWriterInput>)
    requires
        !w.stopped,
        forall|i: int| 0 <= i < inputs.len() ==> !((#[trigger] inputs[i]).input is BusClosed),
    ensures
        !writer_end(w, inputs).stopped,
        w.pending + rows_arrived(inputs) == rows_of_batches(writer_run(w, inputs)) + writer_end(
            w,
            inputs,
        ).pending,
    decreases inputs.len(),
{
    if inputs.len() == 0 {
        assert(w.pending + rows_arrived(inputs) =~= rows_of_batches(writer_run(w, inputs))
            + writer_end(w, inputs).pending);
    } else {
        let first = writer_step(w, inputs[0].input, inputs[0].now);
        let rest = inputs.drop_first();
        assert(!(inputs[0].input is BusClosed));
        assert forall|i: int| 0 <= i < rest.len() implies !((#[trigger] rest[i]).input
            is BusClosed) by {
            assert(rest[i] == inputs[i + 1]);
        }
        law_open_channel_loses_no_row(first.next, rest);
        let head = batches_of(first.flush);
        let tail = writer_run(first.next, rest);
        lemma_rows_of_batches_split(head, tail);
        match first.flush {
            Some(batch) => {
                lemma_rows_of_one_batch(batch);
            },
            None => {},
        }
        assert(w.pending + rows_arrived(inputs) =~= rows_of_batches(writer_run(w, inputs))
            + writer_end(w, inputs).pending);
    }
}

/// The rows of one batch are that batch.
pub proof fn lemma_rows_of_one_batch(batch: Seq<ConnectionRowView>)
    ensures
        rows_of_batches(seq![batch]) == batch,
{
    reveal_with_fuel(rows_of_batches, 2);
    let one = seq![batch];
    assert(one.drop_first() =~= Seq::<Seq<ConnectionRowView>>::empty());
    assert(rows_of_batches(one) =~= batch);
}

/// The rows of two runs of batches are the rows of the first, then those of
/// the second.
pub proof fn lemma_rows_of_batches_split(
    a: Seq<Seq<ConnectionRowView>>,
    b: Seq<Seq<ConnectionRowView>>,
)
    ensures
        rows_of_batches(a + b) == rows_of_batches(a) + rows_of_batches(b),
    decreases a.len(),
{
    if a.len() == 0 {
        assert(a + b =~= b);
        assert(rows_of_batches(a + b) =~= rows_of_batches(a) + rows_of_batches(b));
    } else {
        assert((a + b)[0] == a[0]);
        assert((a + b).drop_first() =~= a.drop_first() + b);
        lemma_rows_of_batches_split(a.drop_first(), b);
        assert(rows_of_batches(a + b) =~= rows_of_batches(a) + rows_of_batches(b));
    }
}

/// When the channel closes after a run, every row has been handed out
/// exactly once and in the order of arrival, nothing is left pending, and
/// the writer has stopped.
pub proof fn law_shutdown_flushes_everything(
    w: WriterView,
    inputs: Seq<TimedWriterInput>,
    closed_at: nat,
)
    requires
        !w.stopped,
        forall|i: int| 0 <= i < inputs.len() ==> !((#[trigger] inputs[i]).input is BusClosed),
    ensures
        ({
            let close = TimedWriterInput { input: WriterInputView::BusClosed, now: closed_at };
            let whole = inputs + seq![close];
            &&& rows_of_batches(writer_run(w, whole)) == w.pending + rows_arrived(inputs)
            &&& writer_end(w, whole).pending.len() == 0
            &&& writer_end(w, whole).stopped
        }),
{
    let close = TimedWriterInput { input: WriterInputView::BusClosed, now: closed_at };
    let whole = inputs + seq![close];
    let before = writer_end(w, inputs);
    law_open_channel_loses_no_row(w, inputs);
    lemma_writer_run_split(w, inputs, seq![close]);
    lemma_writer_run_one(before, close);
    let last = batches_of(batch_of(before.pending));
    lemma_rows_of_batches_split(writer_run(w, inputs), last);
    if before.pending.len() > 0 {
        lemma_rows_of_one_batch(before.pending);
    }
    assert(rows_of_batches(last) =~= before.pending);
    assert(rows_of_batches(writer_run(w, whole)) =~= w.pending + rows_arrived(inputs));
}

/// Every row that arrives with an event carries byte counts only if it is a
/// close row.
pub proof fn law_arrived_rows_count_only_when_closed(inputs: Seq<TimedWriterInput>)
    ensures
        forall|k: int|
            0 <= k < rows_arrived(inputs).len() ==> counts_only_when_closed(
                #[trigger] rows_arrived(inputs)[k],
            ),
    decreases inputs.len(),
{
    if inputs.len() > 0 {
        law_arrived_rows_count_only_when_closed(inputs.drop_first());
        let rest = rows_arrived(inputs.drop_first());
        assert forall|k: int| 0 <= k < rows_arrived(inputs).len() implies counts_only_when_closed(
            #[trigger] rows_arrived(inputs)[k],
        ) by {
            match inputs[0].input {
                WriterInputView::Event(e) => {
                    if k > 0 {
                        assert(rows_arrived(inputs)[k] == rest[k - 1]);
                    }
                },
                _ => {
                    assert(rows_arrived(inputs)[k] == rest[k]);
                },
            }
        }
    }
}

/// A stopped writer hands out nothing and never changes.
pub proof fn law_stopped_writer_is_silent(w: WriterView, inputs: Seq<TimedWriterInput>)
    requires
        w.stopped,
    ensures
        writer_run(w, inputs) == Seq::<Seq<ConnectionRowView>>::empty(),
        writer_end(w, inputs) == w,
    decreases inputs.len(),
{
    if inputs.len() > 0 {
        law_stopped_writer_is_silent(w, inputs.drop_first());
        assert(writer_run(w, inputs) =~= Seq::<Seq<ConnectionRowView>>::empty());
    }
}

/// Whether every input is a tick before `deadline`.
pub open spec fn ticks_before(inputs: Seq<TimedWriterInput>, deadline: nat) -> bool {
    forall|i: int|
        0 <= i < inputs.len() ==> (#[trigger] inputs[i]).input is Tick && inputs[i].now < deadline
}

/// Ticks before the deadline change nothing and hand out nothing.
pub proof fn law_no_flush_before_deadline(w: WriterView, early: Seq<TimedWriterInput>)
    requires
        !w.stopped,
        ticks_before(early, w.deadline),
    ensures
        writer_run(w, early) == Seq::<Seq<ConnectionRowView>>::empty(),
        writer_end(w, early) == w,
    decreases early.len(),
{
    if early.len() > 0 {
        let rest = early.drop_first();
        assert(early[0].input is Tick && early[0].now < w.deadline);
        assert forall|i: int| 0 <= i < rest.len() implies (#[trigger] rest[i]).input is Tick
            && rest[i].now < w.deadline by {
            assert(rest[i] == early[i + 1]);
        }
        law_no_flush_before_deadline(w, rest);
        assert(writer_run(w, early) =~= Seq::<Seq<ConnectionRowView>>::empty());
    }
}

/// With at least one row pending and no event arriving, the pending rows are
/// handed out by the first tick at or after the deadline, and not before:
/// the ticks before the deadline hand out nothing, and the tick at `now`
/// hands out all pending rows in one batch and starts the deadline anew.
pub proof fn law_deadline_flushes_without_events(
    w: WriterView,
    early: Seq<TimedWriterInput>,
    now: nat,
)
    requires
        !w.stopped,
        w.pending.len() > 0,
        ticks_before(early, w.deadline),
        now >= w.deadline,
    ensures
        ({
            let due = TimedWriterInput { input: WriterInputView::Tick, now };
            &&& writer_run(w, early + seq![due]) == seq![w.pending]
            &&& writer_end(w, early + seq![due]) == w.flushed(now)
            &&& writer_end(w, early + seq![due]).deadline == now + w.flush_every
        }),
{
    let due = TimedWriterInput { input: WriterInputView::Tick, now };
    law_no_flush_before_deadline(w, early);
    lemma_writer_run_split(w, early, seq![due]);
    lemma_writer_run_one(w, due);
    assert(writer_run(w, early + seq![due]) =~= seq![w.pending]);
}

/// The deadline moves only by starting anew, with nothing left pending: an
/// event that does not fill the batch leaves it where it was, and so do
/// dropped events, early ticks and the closing of the channel.
pub proof fn law_deadline_moves_only_by_starting_anew(
    w: WriterView,
    input: WriterInputView,
    now: nat,
)
    ensures
        writer_step(w, input, now).next.deadline != w.deadline ==> writer_step(
            w,
            input,
            now,
        ).next == w.flushed(now),
        input is Event && writer_step(w, input, now).flush is None ==> writer_step(
            w,
            input,
            now,
        ).next.deadline == w.deadline,
        input is Lagged || input is BusClosed || (input is Tick && now < w.deadline)
            ==> writer_step(w, input, now).next.deadline == w.deadline,
{
}

} // verus!
