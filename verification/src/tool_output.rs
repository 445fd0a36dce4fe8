//! The output of running tools, on its way to whoever shows it.
//!
//! Chunks that arrive one after the other on one stream are sent as one piece. Nothing
//! is lost and nothing changes places.
use vstd::prelude::*;
use vstd::string::*;

use std::collections::VecDeque;

verus! {

/// Where a tool writes.
#[derive(Debug, Clone, Copy, PartialEq, Eq, Structural)]
pub enum ToolOutputStream {
    Stdout,
    Stderr,
}

/// A piece of output.
#[derive(Debug)]
pub struct OutputBatch {
    pub stream: ToolOutputStream,
    pub content: String,
}

/// Text as it was written: each character with its stream.
pub open spec fn written(stream: ToolOutputStream, content: Seq<char>) -> Seq<
    (ToolOutputStream, char),
> {
    Seq::new(content.len(), |i: int| (stream, content[i]))
}

/// What a list of pieces holds, as it was written.
pub open spec fn all_written(batches: Seq<OutputBatch>) -> Seq<(ToolOutputStream, char)>
    decreases batches.len(),
{
    if batches.len() == 0 {
        Seq::empty()
    } else {
        all_written(batches.drop_last()) + written(batches.last().stream, batches.last().content@)
    }
}

/// No piece is empty, and no two pieces in a row are of one stream.
pub open spec fn is_coalesced(batches: Seq<OutputBatch>) -> bool {
    &&& forall|i: int| 0 <= i < batches.len() ==> (#[trigger] batches[i]).content@.len() > 0
    &&& forall|i: int, j: int|
        0 <= i && j == i + 1 && j < batches.len() ==> (#[trigger] batches[i]).stream != (
        #[trigger] batches[j]).stream
}

/// What is waiting once a chunk has arrived.
pub open spec fn is_appended(
    old: Seq<OutputBatch>,
    stream: ToolOutputStream,
    content: Seq<char>,
    new: Seq<OutputBatch>,
) -> bool {
    if content.len() == 0 {
        new == old
    } else if old.len() > 0 && old.last().stream == stream {
        &&& new.len() == old.len()
        &&& new.drop_last() == old.drop_last()
        &&& new.last().stream == stream
        &&& new.last().content@ == old.last().content@ + content
    } else {
        &&& new.len() == old.len() + 1
        &&& new.drop_last() == old
        &&& new.last().stream == stream
        &&& new.last().content@ == content
    }
}

/// Takes a chunk of output.
pub fn append_tool_output_batch(
    batches: &mut VecDeque<OutputBatch>,
    stream: ToolOutputStream,
    content: String,
)
    ensures
        is_appended(old(batches)@, stream, content@, final(batches)@),
{
    if content.as_str().unicode_len() == 0 {
        return;
    }
    match batches.pop_back() {
        None => {
            batches.push_back(OutputBatch { stream, content });
            assert(batches@.drop_last() == old(batches)@);
        },
        Some(last) => {
            let mut last = last;
            assert(batches@ == old(batches)@.drop_last());
            if last.stream == stream {
                last.content.append(content.as_str());
                batches.push_back(last);
                assert(batches@.drop_last() == old(batches)@.drop_last());
            } else {
                batches.push_back(last);
                assert(batches@ == old(batches)@);
                batches.push_back(OutputBatch { stream, content });
                assert(batches@.drop_last() == old(batches)@);
            }
        },
    }
}

// The forwarder --------------------------------------------------------------
/// Why what is waiting is being sent.
#[derive(Debug, Clone, Copy, PartialEq, Eq, Structural)]
pub enum FlushCause {
    /// Somebody asked for it and waits for an answer.
    Asked,
    /// It has waited long enough.
    Ticked,
    /// No more output will come.
    Closed,
}

#[derive(Debug, Clone, Copy, PartialEq, Eq, Structural)]
pub enum ForwarderStage {
    /// It waits for output.
    Idle,
    /// A piece is being sent.
    Sending(FlushCause),
    Stopped,
}

/// What happened since the last step.
#[derive(Debug)]
pub enum ForwarderEvent {
    Chunk { stream: ToolOutputStream, content: String },
    Flush(FlushCause),
    /// The piece was sent, or nobody is there to receive it.
    Sent { delivered: bool },
}

/// What to do next.
#[derive(Debug)]
pub enum ForwarderAction {
    /// Wait for output, for a request, or, where something is waiting, for the time to
    /// send it.
    Wait,
    Send(OutputBatch),
    /// Answer the request; then wait, or stop.
    Acknowledge { stop: bool },
    Stop,
}

/// Output on its way.
#[derive(Debug)]
pub struct OutputForwarder {
    pub batches: VecDeque<OutputBatch>,
    pub stage: ForwarderStage,
}

/// The end of a flush.
pub open spec fn flush_ends(cause: FlushCause, delivered: bool) -> (ForwarderStage, ForwarderAction) {
    let stop = !delivered || cause is Closed;
    (
        if stop {
            ForwarderStage::Stopped
        } else {
            ForwarderStage::Idle
        },
        if cause is Asked {
            ForwarderAction::Acknowledge { stop }
        } else if stop {
            ForwarderAction::Stop
        } else {
            ForwarderAction::Wait
        },
    )
}

/// The next piece is sent, or the flush ends.
pub open spec fn flushes_on(
    f: OutputForwarder,
    cause: FlushCause,
    next: OutputForwarder,
    action: ForwarderAction,
) -> bool {
    if f.batches@.len() > 0 {
        &&& action == ForwarderAction::Send(f.batches@[0])
        &&& next.batches@ == f.batches@.drop_first()
        &&& next.stage == ForwarderStage::Sending(cause)
    } else {
        &&& next.batches@ == f.batches@
        &&& (next.stage, action) == flush_ends(cause, true)
    }
}

/// What [`OutputForwarder::step`] does.
pub open spec fn forwarder_step(
    f: OutputForwarder,
    event: ForwarderEvent,
    next: OutputForwarder,
    action: ForwarderAction,
) -> bool {
    match event {
        ForwarderEvent::Chunk { stream, content } => {
            &&& is_appended(f.batches@, stream, content@, next.batches@)
            &&& next.stage == f.stage
            &&& action is Wait
        },
        ForwarderEvent::Flush(cause) => flushes_on(f, cause, next, action),
        ForwarderEvent::Sent { delivered } => f.stage matches ForwarderStage::Sending(cause)
            && if delivered {
            flushes_on(f, cause, next, action)
        } else {
            &&& next.batches@ == f.batches@
            &&& (next.stage, action) == flush_ends(cause, false)
        },
    }
}

impl OutputForwarder {
    /// A forwarder with nothing waiting.
    pub fn new() -> (r: Self)
        ensures
            r.batches@ == Seq::<OutputBatch>::empty(),
            r.stage is Idle,
    {
        OutputForwarder { batches: VecDeque::new(), stage: ForwarderStage::Idle }
    }

    /// Whether something is waiting to be sent.
    pub fn has_output(&self) -> (r: bool)
        ensures
            r == (self.batches@.len() > 0),
    {
        self.batches.len() > 0
    }

    /// Whether the forwarder waits for an event of this sort.
    pub open spec fn expects(self, event: ForwarderEvent) -> bool {
        match event {
            ForwarderEvent::Chunk { .. } => self.stage is Idle,
            ForwarderEvent::Flush(_) => self.stage is Idle,
            ForwarderEvent::Sent { .. } => self.stage is Sending,
        }
    }

    fn end(&mut self, cause: FlushCause, delivered: bool) -> (r: ForwarderAction)
        ensures
            final(self).batches@ == old(self).batches@,
            (final(self).stage, r) == flush_ends(cause, delivered),
    {
        let stop = !delivered || cause == FlushCause::Closed;
        self.stage = if stop {
            ForwarderStage::Stopped
        } else {
            ForwarderStage::Idle
        };
        if cause == FlushCause::Asked {
            ForwarderAction::Acknowledge { stop }
        } else if stop {
            ForwarderAction::Stop
        } else {
            ForwarderAction::Wait
        }
    }

    fn flush_on(&mut self, cause: FlushCause) -> (r: ForwarderAction)
        ensures
            flushes_on(*old(self), cause, *final(self), r),
    {
        match self.batches.pop_front() {
            Some(batch) => {
                assert(self.batches@ == old(self).batches@.drop_first());
                self.stage = ForwarderStage::Sending(cause);
                ForwarderAction::Send(batch)
            },
            None => self.end(cause, true),
        }
    }

    /// Takes what happened and says what to do next.
    pub fn step(&mut self, event: ForwarderEvent) -> (r: ForwarderAction)
        requires
            old(self).expects(event),
        ensures
            forwarder_step(*old(self), event, *final(self), r),
    {
        match event {
            ForwarderEvent::Chunk { stream, content } => {
                append_tool_output_batch(&mut self.batches, stream, content);
                ForwarderAction::Wait
            },
            ForwarderEvent::Flush(cause) => self.flush_on(cause),
            ForwarderEvent::Sent { delivered } => {
                let cause = match self.stage {
                    ForwarderStage::Sending(cause) => cause,
                    _ => FlushCause::Closed,
                };
                if delivered {
                    self.flush_on(cause)
                } else {
                    self.end(cause, false)
                }
            },
        }
    }
}

// Laws -----------------------------------------------------------------------
/// A chunk is added at the end of what is waiting, character by character: the order
/// across both streams is kept.
pub proof fn chunks_are_kept_in_order(
    old: Seq<OutputBatch>,
    stream: ToolOutputStream,
    content: Seq<char>,
    new: Seq<OutputBatch>,
)
    requires
        is_appended(old, stream, content, new),
    ensures
        all_written(new) == all_written(old) + written(stream, content),
{
    if content.len() == 0 {
        assert(all_written(new) =~= all_written(old) + written(stream, content));
    } else if old.len() > 0 && old.last().stream == stream {
        let head = all_written(old.drop_last());
        assert(written(stream, old.last().content@ + content) =~= written(
            stream,
            old.last().content@,
        ) + written(stream, content));
        assert(head + (written(stream, old.last().content@) + written(stream, content)) =~= (head
            + written(stream, old.last().content@)) + written(stream, content));
    }
}

/// What is waiting stays in as few pieces as can be.
pub proof fn chunks_are_coalesced(
    old: Seq<OutputBatch>,
    stream: ToolOutputStream,
    content: Seq<char>,
    new: Seq<OutputBatch>,
)
    requires
        is_coalesced(old),
        is_appended(old, stream, content, new),
    ensures
        is_coalesced(new),
{
    if content.len() > 0 {
        assert forall|i: int| 0 <= i < new.len() - 1 implies #[trigger] new[i] == old[i] by {
            assert(new[i] == new.drop_last()[i]);
            if old.len() > 0 && old.last().stream == stream {
                assert(old[i] == old.drop_last()[i]);
            }
        }
        assert forall|i: int| 0 <= i < new.len() implies (#[trigger] new[i]).content@.len()
            > 0 by {
            if i < new.len() - 1 {
                assert(old[i].content@.len() > 0);
            }
        }
        assert forall|i: int, j: int| 0 <= i && j == i + 1 && j < new.len() implies (
        #[trigger] new[i]).stream != (#[trigger] new[j]).stream by {
            assert(new[i] == old[i]);
            if j < new.len() - 1 {
                assert(new[j] == old[j]);
            } else if old.len() > 0 && old.last().stream == stream {
                assert(old[j].stream == stream);
            } else {
                assert(old[i] == old.last());
            }
        }
    }
}

proof fn lemma_first_piece(batches: Seq<OutputBatch>)
    requires
        batches.len() > 0,
    ensures
        all_written(batches) == written(batches[0].stream, batches[0].content@) + all_written(
            batches.drop_first(),
        ),
    decreases batches.len(),
{
    let first = written(batches[0].stream, batches[0].content@);
    if batches.len() == 1 {
        assert(batches.drop_last() =~= Seq::<OutputBatch>::empty());
        assert(batches.drop_first() =~= Seq::<OutputBatch>::empty());
        assert(Seq::<(ToolOutputStream, char)>::empty() + first =~= first
            + Seq::<(ToolOutputStream, char)>::empty());
    } else {
        let last = written(batches.last().stream, batches.last().content@);
        lemma_first_piece(batches.drop_last());
        assert(batches.drop_last().drop_first() =~= batches.drop_first().drop_last());
        assert((first + all_written(batches.drop_first().drop_last())) + last =~= first + (
        all_written(batches.drop_first().drop_last()) + last));
    }
}

/// What a step puts on its way.
pub open spec fn sent_by(action: ForwarderAction) -> Seq<(ToolOutputStream, char)> {
    match action {
        ForwarderAction::Send(batch) => written(batch.stream, batch.content@),
        _ => Seq::empty(),
    }
}

/// What a step takes in.
pub open spec fn taken_by(event: ForwarderEvent) -> Seq<(ToolOutputStream, char)> {
    match event {
        ForwarderEvent::Chunk { stream, content } => written(stream, content@),
        _ => Seq::empty(),
    }
}

/// No step loses output or changes its order: what is sent and what still waits is what
/// waited before and what came in.
pub proof fn no_output_is_lost(
    f: OutputForwarder,
    event: ForwarderEvent,
    next: OutputForwarder,
    action: ForwarderAction,
)
    requires
        f.expects(event),
        forwarder_step(f, event, next, action),
    ensures
        sent_by(action) + all_written(next.batches@) == all_written(f.batches@) + taken_by(event),
{
    let none = Seq::<(ToolOutputStream, char)>::empty();
    match event {
        ForwarderEvent::Chunk { stream, content } => {
            chunks_are_kept_in_order(f.batches@, stream, content@, next.batches@);
            assert(none + all_written(next.batches@) =~= all_written(next.batches@));
        },
        _ => {
            if action is Send {
                lemma_first_piece(f.batches@);
            }
            assert(none + all_written(f.batches@) =~= all_written(f.batches@));
            assert(all_written(f.batches@) + none =~= all_written(f.batches@));
        },
    }
}

/// A request to send what is waiting is answered only when nothing waits any more, or
/// when nobody receives it.
pub proof fn requests_are_answered_last(
    f: OutputForwarder,
    event: ForwarderEvent,
    next: OutputForwarder,
    action: ForwarderAction,
)
    requires
        f.expects(event),
        forwarder_step(f, event, next, action),
        action is Acknowledge,
    ensures
        next.batches@.len() == 0 || event == (ForwarderEvent::Sent { delivered: false }),
{
}

} // verus!
