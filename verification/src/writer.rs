//! The writer behind a queue: what it does with each thing that reaches it.

use vstd::prelude::*;

verus! {

/// How many messages the queue of a writer holds.
pub const ASYNC_QUEUE_CAPACITY: usize = 10_000;

/// After how many milliseconds without a message the writer writes out what
/// is pending.
pub const ASYNC_FLUSH_INTERVAL_MS: u64 = 100;

/// What is sent to a writer.
#[derive(Debug)]
pub enum WriterMessage {
    /// A line to write.
    Write(String),
    Flush,
    Shutdown,
}

/// What a writer finds when it waits at its queue.
#[derive(Debug)]
pub enum WriterEvent {
    Message(WriterMessage),
    /// Nothing came within the interval.
    Timeout,
    /// Nobody is left to send anything.
    Disconnected,
}

/// What a writer does next.
#[derive(Debug)]
pub enum WriterAction {
    /// Write the text and the end of a line, and wait again.
    WriteLine(String),
    /// Write out what is pending, and wait again.
    Flush,
    /// Write out what is pending, and stop.
    FlushAndExit,
}

/// What a writer does on an event.
pub open spec fn action_for(event: WriterEvent) -> WriterAction {
    match event {
        WriterEvent::Message(WriterMessage::Write(line)) => WriterAction::WriteLine(line),
        WriterEvent::Message(WriterMessage::Flush) => WriterAction::Flush,
        WriterEvent::Message(WriterMessage::Shutdown) => WriterAction::FlushAndExit,
        WriterEvent::Timeout => WriterAction::Flush,
        WriterEvent::Disconnected => WriterAction::FlushAndExit,
    }
}

/// What a writer does on an event.
pub fn writer_step(event: WriterEvent) -> (r: WriterAction)
    ensures
        r == action_for(event),
{
    match event {
        WriterEvent::Message(WriterMessage::Write(line)) => WriterAction::WriteLine(line),
        WriterEvent::Message(WriterMessage::Flush) => WriterAction::Flush,
        WriterEvent::Message(WriterMessage::Shutdown) => WriterAction::FlushAndExit,
        WriterEvent::Timeout => WriterAction::Flush,
        WriterEvent::Disconnected => WriterAction::FlushAndExit,
    }
}

/// Whether the writer stops on an event.
pub open spec fn stops(event: WriterEvent) -> bool {
    action_for(event) is FlushAndExit
}

/// The lines that a writer writes when the given events reach it in their
/// order, up to the event on which it stops.
pub open spec fn lines_written(events: Seq<WriterEvent>) -> Seq<Seq<char>>
    decreases events.len(),
{
    if events.len() == 0 {
        Seq::empty()
    } else {
        match action_for(events[0]) {
            WriterAction::WriteLine(line) => seq![line@] + lines_written(events.skip(1)),
            WriterAction::Flush => lines_written(events.skip(1)),
            WriterAction::FlushAndExit => Seq::empty(),
        }
    }
}

/// Whether a writer that the given events reach has stopped, and written out
/// all that it wrote, when the last of them is dealt with.
pub open spec fn has_stopped(events: Seq<WriterEvent>) -> bool
    decreases events.len(),
{
    if events.len() == 0 {
        false
    } else {
        stops(events[0]) || has_stopped(events.skip(1))
    }
}

/// The events of so many lines sent one after the other and then a shutdown.
pub open spec fn writes_then_shutdown(lines: Seq<String>) -> Seq<WriterEvent> {
    Seq::new(lines.len(), |i: int| WriterEvent::Message(WriterMessage::Write(lines[i]))).push(
        WriterEvent::Message(WriterMessage::Shutdown),
    )
}

/// A writer that is sent lines and then a shutdown writes exactly those lines,
/// in the order in which they were sent, and then stops.
pub proof fn lemma_lines_in_order(lines: Seq<String>)
    ensures
        lines_written(writes_then_shutdown(lines)) == Seq::new(lines.len(), |i: int| lines[i]@),
        has_stopped(writes_then_shutdown(lines)),
    decreases lines.len(),
{
    let events = writes_then_shutdown(lines);
    if lines.len() == 0 {
        assert(lines_written(events) =~= Seq::new(lines.len(), |i: int| lines[i]@));
    } else {
        let rest = lines.skip(1);
        lemma_lines_in_order(rest);
        assert(events.skip(1) =~= writes_then_shutdown(rest));
        assert(events[0] == WriterEvent::Message(WriterMessage::Write(lines[0])));
        assert(seq![lines[0]@] + Seq::new(rest.len(), |i: int| rest[i]@) =~= Seq::new(
            lines.len(),
            |i: int| lines[i]@,
        ));
    }
}

} // verus!
