//! The run loop: a sequence of transactions, each of which reads one chunk
//! and then writes one queued input, followed by a last chunk and the rest
//! of the stream.
//!
//! The loop here decides what is done next and what is forwarded; the caller
//! reads, writes and sends, and reports back what became of it.

use vstd::prelude::*;
use vstd::string::*;
use vstd::utf8::*;

use crate::error::Error;
use crate::text::{lead, skip_leading, to_chars, CharClass};

verus! {

/// The non-empty lines of `text`, in order. A line ends at a line feed or at
/// the end of the text.
pub open spec fn lines(text: Seq<char>) -> Seq<Seq<char>>
    decreases text.len(),
{
    let n = lead(text, CharClass::NotNewline);
    if 0 <= n < text.len() {
        if n > 0 {
            seq![text.take(n)] + lines(text.skip(n + 1))
        } else {
            lines(text.skip(n + 1))
        }
    } else if text.len() > 0 {
        seq![text]
    } else {
        Seq::empty()
    }
}

/// The texts that a vector of strings holds.
pub open spec fn texts(v: Seq<String>) -> Seq<Seq<char>> {
    Seq::new(v.len(), |i: int| v[i]@)
}

/// Splits `text` at line feeds and keeps the lines that are not empty.
pub fn split_lines(text: &str) -> (out: Vec<String>)
    ensures
        texts(out@) == lines(text@),
{
    let v = to_chars(text);
    let n: usize = v.len();
    let mut out: Vec<String> = Vec::new();
    let mut i: usize = 0;
    proof {
        assert(v@.subrange(0, n as int) =~= text@);
        assert(texts(out@) =~= Seq::<Seq<char>>::empty());
    }
    while i < n
        invariant
            i <= n,
            n == v@.len(),
            v@ == text@,
            lines(text@) =~= texts(out@) + lines(v@.subrange(i as int, n as int)),
        decreases n - i,
    {
        let e = skip_leading(&v, i, n, CharClass::NotNewline);
        let ghost rest = v@.subrange(i as int, n as int);
        let ghost before = texts(out@);
        proof {
            assert(rest.take(e - i) =~= v@.subrange(i as int, e as int));
            if e < n {
                assert(rest.skip(e - i + 1) =~= v@.subrange(e + 1, n as int));
            } else {
                assert(rest.take(e - i) =~= rest);
            }
        }
        if e > i {
            let line = text.substring_char(i, e).to_owned();
            out.push(line);
            assert(texts(out@) =~= before + seq![v@.subrange(i as int, e as int)]);
        }
        if e < n {
            i = e + 1;
        } else {
            i = n;
            assert(v@.subrange(n as int, n as int) =~= Seq::<char>::empty());
        }
    }
    assert(v@.subrange(n as int, n as int) =~= Seq::<char>::empty());
    assert(texts(out@) =~= lines(text@));
    out
}

/// Where the run loop stands.
#[derive(Clone, Copy, Debug, PartialEq, Eq, Structural)]
pub enum RunStage {
    /// A chunk is being read before the next input is written.
    AwaitChunk,
    /// That chunk is being forwarded and mirrored.
    Forwarding,
    /// The input is being written to the transport and echoed.
    Writing,
    /// The inputs are used up and the last chunk is being read.
    AwaitLastChunk,
    /// The last chunk is being forwarded and mirrored.
    ForwardingLast,
    /// What is left of the stream is being copied to the console.
    Draining,
    /// Nothing is left to do.
    Finished,
}

/// What the caller reports back to the run loop.
#[derive(Debug)]
pub enum RunEvent {
    /// The chunk that was asked for, or why it could not be read, and
    /// whether the channel still has a live consumer.
    Chunk { text: Result<String, Error>, listening: bool },
    /// Whether the writes that were asked for all went through.
    Completed(bool),
}

/// What the run loop asks of the caller.
#[derive(Debug)]
pub enum RunAction {
    /// Read one chunk, waiting for its first byte without a time limit.
    ReadChunk,
    /// Read the last chunk, every byte bound by the idle window.
    ReadLastChunk,
    /// Send each line on the channel, in order and without regard to
    /// failures, and write `mirror` to the console.
    Forward { lines: Vec<String>, mirror: Vec<u8> },
    /// Write `transport` to the transport and `console` to the console,
    /// both at once; both have to go through.
    Write { transport: Vec<u8>, console: Vec<u8> },
    /// Copy the transport to the console until its read side ends.
    Drain,
    /// The run is over, with this result.
    Done(Result<(), Error>),
}

/// An event as plain values.
pub ghost enum RunEventView {
    Chunk { text: Result<Seq<char>, Error>, listening: bool },
    Completed(bool),
}

/// An action as plain values.
pub ghost enum RunActionView {
    ReadChunk,
    ReadLastChunk,
    Forward { lines: Seq<Seq<char>>, mirror: Seq<u8> },
    Write { transport: Seq<u8>, console: Seq<u8> },
    Drain,
    Done(Result<(), Error>),
}

impl View for RunEvent {
    type V = RunEventView;

    open spec fn view(&self) -> RunEventView {
        match self {
            RunEvent::Chunk { text, listening } => RunEventView::Chunk {
                text: match text {
                    Ok(t) => Ok(t@),
                    Err(e) => Err(*e),
                },
                listening: *listening,
            },
            RunEvent::Completed(ok) => RunEventView::Completed(*ok),
        }
    }
}

impl View for RunAction {
    type V = RunActionView;

    open spec fn view(&self) -> RunActionView {
        match self {
            RunAction::ReadChunk => RunActionView::ReadChunk,
            RunAction::ReadLastChunk => RunActionView::ReadLastChunk,
            RunAction::Forward { lines, mirror } => RunActionView::Forward {
                lines: texts(lines@),
                mirror: mirror@,
            },
            RunAction::Write { transport, console } => RunActionView::Write {
                transport: transport@,
                console: console@,
            },
            RunAction::Drain => RunActionView::Drain,
            RunAction::Done(r) => RunActionView::Done(*r),
        }
    }
}

/// The state of a run as plain values.
pub ghost struct RunState {
    pub stage: RunStage,
    /// The queue of inputs, as it was handed in.
    pub inputs: Seq<Seq<u8>>,
    /// How many of the inputs have been taken from the front of the queue.
    pub taken: nat,
    /// Whether the run has a channel to forward chunks on.
    pub channel: bool,
}

/// The action that starts a transaction: a chunk is read before the next
/// input is written, and the last chunk once the queue is used up.
pub open spec fn next_read(inputs: Seq<Seq<u8>>, taken: nat) -> (RunStage, RunActionView) {
    if taken < inputs.len() {
        (RunStage::AwaitChunk, RunActionView::ReadChunk)
    } else {
        (RunStage::AwaitLastChunk, RunActionView::ReadLastChunk)
    }
}

/// The state in which a run over `inputs` starts, with or without a
/// channel.
pub open spec fn run_start(inputs: Seq<Seq<u8>>, channel: bool) -> RunState {
    RunState { stage: next_read(inputs, 0).0, inputs, taken: 0, channel }
}

/// The byte strings that a queue of inputs holds.
pub open spec fn queue(inputs: Seq<Vec<u8>>) -> Seq<Seq<u8>> {
    Seq::new(inputs.len(), |i: int| inputs[i]@)
}

/// Whether the event answers what the run loop asked for last.
pub open spec fn expected(stage: RunStage, e: RunEventView) -> bool {
    match stage {
        RunStage::AwaitChunk | RunStage::AwaitLastChunk => e is Chunk,
        RunStage::Forwarding | RunStage::Writing | RunStage::ForwardingLast | RunStage::Draining => e is Completed,
        RunStage::Finished => false,
    }
}

/// How a chunk is passed on: its non-empty lines go to the channel while
/// someone listens, and all of its bytes go to the console in any case.
pub open spec fn forward(text: Seq<char>, listening: bool) -> RunActionView {
    RunActionView::Forward {
        lines: if listening {
            lines(text)
        } else {
            Seq::empty()
        },
        mirror: encode_utf8(text),
    }
}

/// The run is over with `e`.
pub open spec fn fail(s: RunState, e: Error) -> (RunState, RunActionView) {
    (RunState { stage: RunStage::Finished, ..s }, RunActionView::Done(Err(e)))
}

/// The state after an event, and what is asked of the caller next.
///
/// A chunk that could not be read ends the run with its error, and so does
/// any write that failed. An event that does not answer what was asked for
/// leaves the state as it is.
pub open spec fn run_step(s: RunState, e: RunEventView) -> (RunState, RunActionView) {
    match (s.stage, e) {
        (RunStage::AwaitChunk, RunEventView::Chunk { text: Ok(t), listening }) => (
            RunState { stage: RunStage::Forwarding, ..s },
            forward(t, s.channel && listening),
        ),
        (RunStage::AwaitLastChunk, RunEventView::Chunk { text: Ok(t), listening }) => (
            RunState { stage: RunStage::ForwardingLast, ..s },
            forward(t, s.channel && listening),
        ),
        (RunStage::AwaitChunk, RunEventView::Chunk { text: Err(err), .. }) => fail(s, err),
        (RunStage::AwaitLastChunk, RunEventView::Chunk { text: Err(err), .. }) => fail(s, err),
        (RunStage::Forwarding, RunEventView::Completed(true)) => if s.taken < s.inputs.len() {
            (
                RunState { stage: RunStage::Writing, taken: s.taken + 1, ..s },
                RunActionView::Write {
                    transport: s.inputs[s.taken as int],
                    console: s.inputs[s.taken as int].push(0x0Au8),
                },
            )
        } else {
            fail(s, Error::TransportIo)
        },
        (RunStage::Writing, RunEventView::Completed(true)) => (
            RunState { stage: next_read(s.inputs, s.taken).0, ..s },
            next_read(s.inputs, s.taken).1,
        ),
        (RunStage::ForwardingLast, RunEventView::Completed(true)) => (
            RunState { stage: RunStage::Draining, ..s },
            RunActionView::Drain,
        ),
        (RunStage::Draining, RunEventView::Completed(true)) => (
            RunState { stage: RunStage::Finished, ..s },
            RunActionView::Done(Ok(())),
        ),
        (RunStage::Forwarding, RunEventView::Completed(false)) => fail(s, Error::TransportIo),
        (RunStage::Writing, RunEventView::Completed(false)) => fail(s, Error::TransportIo),
        (RunStage::ForwardingLast, RunEventView::Completed(false)) => fail(s, Error::TransportIo),
        (RunStage::Draining, RunEventView::Completed(false)) => fail(s, Error::TransportIo),
        _ => (s, RunActionView::Done(Err(Error::TransportIo))),
    }
}

/// Copies `bytes`.
fn copy_bytes(bytes: &Vec<u8>) -> (out: Vec<u8>)
    ensures
        out@ == bytes@,
{
    let mut out: Vec<u8> = Vec::new();
    let mut i: usize = 0;
    while i < bytes.len()
        invariant
            i <= bytes@.len(),
            out@ == bytes@.take(i as int),
        decreases bytes@.len() - i,
    {
        out.push(bytes[i]);
        assert(out@ =~= bytes@.take(i + 1));
        i = i + 1;
    }
    assert(bytes@.take(i as int) =~= bytes@);
    out
}

/// The run loop over a queue of inputs.
#[derive(Debug)]
pub struct RunLoop {
    stage: RunStage,
    inputs: Vec<Vec<u8>>,
    taken: usize,
    channel: bool,
}

impl View for RunLoop {
    type V = RunState;

    closed spec fn view(&self) -> RunState {
        RunState {
            stage: self.stage,
            inputs: queue(self.inputs@),
            taken: self.taken as nat,
            channel: self.channel,
        }
    }
}

impl RunLoop {
    /// Never more inputs are taken than the queue holds, and one is still in
    /// the queue while a chunk is forwarded ahead of it.
    pub open spec fn wf(&self) -> bool {
        &&& self@.taken <= self@.inputs.len()
        &&& (self@.stage == RunStage::AwaitChunk || self@.stage == RunStage::Forwarding)
            ==> self@.taken < self@.inputs.len()
    }

    /// A run over `inputs`, which are consumed from the front, and the first
    /// thing to do. With a channel every chunk is forwarded line by line for
    /// as long as someone listens; without one nothing is ever forwarded.
    pub fn start(inputs: Vec<Vec<u8>>, channel: bool) -> (r: (RunLoop, RunAction))
        ensures
            r.0@ == run_start(queue(inputs@), channel),
            r.1@ == next_read(queue(inputs@), 0).1,
            r.0.wf(),
    {
        if inputs.len() > 0 {
            (RunLoop { stage: RunStage::AwaitChunk, inputs, taken: 0, channel }, RunAction::ReadChunk)
        } else {
            (
                RunLoop { stage: RunStage::AwaitLastChunk, inputs, taken: 0, channel },
                RunAction::ReadLastChunk,
            )
        }
    }

    /// Where the run stands.
    pub fn stage(&self) -> (r: RunStage)
        ensures
            r == self@.stage,
    {
        self.stage
    }

    /// Whether `event` answers what the run asked for last.
    pub fn expects(&self, event: &RunEvent) -> (r: bool)
        ensures
            r == expected(self@.stage, event@),
    {
        match self.stage {
            RunStage::AwaitChunk | RunStage::AwaitLastChunk => match event {
                RunEvent::Chunk { .. } => true,
                RunEvent::Completed(_) => false,
            },
            RunStage::Forwarding
            | RunStage::Writing
            | RunStage::ForwardingLast
            | RunStage::Draining => match event {
                RunEvent::Chunk { .. } => false,
                RunEvent::Completed(_) => true,
            },
            RunStage::Finished => false,
        }
    }

    /// Takes in what became of the last action and says what to do next.
    pub fn advance(&mut self, event: RunEvent) -> (action: RunAction)
        requires
            old(self).wf(),
            expected(old(self)@.stage, event@),
        ensures
            final(self).wf(),
            (final(self)@, action@) == run_step(old(self)@, event@),
    {
        match event {
            RunEvent::Chunk { text, listening } => match text {
                Ok(t) => {
                    let lines = if self.channel && listening {
                        split_lines(t.as_str())
                    } else {
                        let none: Vec<String> = Vec::new();
                        assert(texts(none@) =~= Seq::<Seq<char>>::empty());
                        none
                    };
                    let mirror = t.as_str().as_bytes_vec();
                    if self.stage == RunStage::AwaitChunk {
                        self.stage = RunStage::Forwarding;
                    } else {
                        self.stage = RunStage::ForwardingLast;
                    }
                    RunAction::Forward { lines, mirror }
                },
                Err(e) => {
                    self.stage = RunStage::Finished;
                    RunAction::Done(Err(e))
                },
            },
            RunEvent::Completed(ok) => {
                if !ok {
                    self.stage = RunStage::Finished;
                    return RunAction::Done(Err(Error::TransportIo));
                }
                match self.stage {
                    RunStage::Forwarding => {
                        let queued: usize = self.inputs.len();
                        assert(self.taken < queued);
                        let transport = copy_bytes(&self.inputs[self.taken]);
                        let mut console = copy_bytes(&self.inputs[self.taken]);
                        console.push(0x0Au8);
                        self.taken = self.taken + 1;
                        self.stage = RunStage::Writing;
                        RunAction::Write { transport, console }
                    },
                    RunStage::Writing => {
                        if self.taken < self.inputs.len() {
                            self.stage = RunStage::AwaitChunk;
                            RunAction::ReadChunk
                        } else {
                            self.stage = RunStage::AwaitLastChunk;
                            RunAction::ReadLastChunk
                        }
                    },
                    RunStage::ForwardingLast => {
                        self.stage = RunStage::Draining;
                        RunAction::Drain
                    },
                    _ => {
                        self.stage = RunStage::Finished;
                        RunAction::Done(Ok(()))
                    },
                }
            },
        }
    }
}

/// What an action writes to the console.
pub open spec fn console_of(a: RunActionView) -> Seq<u8> {
    match a {
        RunActionView::Forward { mirror, .. } => mirror,
        RunActionView::Write { console, .. } => console,
        _ => Seq::empty(),
    }
}

/// What an action sends on the channel.
pub open spec fn channel_of(a: RunActionView) -> Seq<Seq<char>> {
    match a {
        RunActionView::Forward { lines, .. } => lines,
        _ => Seq::empty(),
    }
}

/// What an action writes to the transport.
pub open spec fn written_of(a: RunActionView) -> Seq<Seq<u8>> {
    match a {
        RunActionView::Write { transport, .. } => seq![transport],
        _ => Seq::empty(),
    }
}

/// What a run has come to after a number of events.
pub ghost struct Progress {
    pub state: RunState,
    /// Everything written to the console so far.
    pub console: Seq<u8>,
    /// Everything sent on the channel so far.
    pub channel: Seq<Seq<char>>,
    /// Everything written to the transport so far, write by write.
    pub written: Seq<Seq<u8>>,
    /// The action asked for last, if any was.
    pub last: Option<RunActionView>,
}

/// The progress of a run from `s` over `events`.
pub open spec fn run_all(s: RunState, events: Seq<RunEventView>) -> Progress
    decreases events.len(),
{
    if events.len() == 0 {
        Progress {
            state: s,
            console: Seq::empty(),
            channel: Seq::empty(),
            written: Seq::empty(),
            last: None,
        }
    } else {
        let before = run_all(s, events.drop_last());
        let (state, action) = run_step(before.state, events.last());
        Progress {
            state,
            console: before.console + console_of(action),
            channel: before.channel + channel_of(action),
            written: before.written + written_of(action),
            last: Some(action),
        }
    }
}

/// The same event with nobody listening on the channel.
pub open spec fn unheard(e: RunEventView) -> RunEventView {
    match e {
        RunEventView::Chunk { text, .. } => RunEventView::Chunk { text, listening: false },
        RunEventView::Completed(ok) => RunEventView::Completed(ok),
    }
}

/// Whether an action ends the run with an error.
pub open spec fn is_failure(a: Option<RunActionView>) -> bool {
    a matches Some(RunActionView::Done(Err(_)))
}

/// A run does not depend on anyone listening: with every consumer of the
/// channel gone it passes through the same states, writes the same bytes to
/// the console and to the transport and fails only where it would have
/// failed anyway, while nothing is sent on the channel.
pub proof fn lemma_channel_degrades(s: RunState, events: Seq<RunEventView>)
    ensures
        run_all(s, events.map_values(|e: RunEventView| unheard(e))).state == run_all(
            s,
            events,
        ).state,
        run_all(s, events.map_values(|e: RunEventView| unheard(e))).console == run_all(
            s,
            events,
        ).console,
        is_failure(run_all(s, events.map_values(|e: RunEventView| unheard(e))).last)
            == is_failure(run_all(s, events).last),
        run_all(s, events.map_values(|e: RunEventView| unheard(e))).written == run_all(
            s,
            events,
        ).written,
        run_all(s, events.map_values(|e: RunEventView| unheard(e))).channel.len() == 0,
    decreases events.len(),
{
    let quiet = events.map_values(|e: RunEventView| unheard(e));
    if events.len() > 0 {
        lemma_channel_degrades(s, events.drop_last());
        assert(quiet.drop_last() =~= events.drop_last().map_values(|e: RunEventView| unheard(e)));
        assert(quiet.last() == unheard(events.last()));
    }
}

/// A run without a channel is the run with a channel that nobody listens
/// on: the same states but for the channel itself, the same bytes on the
/// console and on the transport, the same failures, and nothing forwarded.
pub proof fn lemma_run_discards_channel(inputs: Seq<Seq<u8>>, events: Seq<RunEventView>)
    ensures
        run_all(run_start(inputs, false), events).state == (RunState {
            channel: false,
            ..run_all(run_start(inputs, true), events.map_values(|e: RunEventView| unheard(e))).state
        }),
        run_all(run_start(inputs, false), events).console == run_all(
            run_start(inputs, true),
            events.map_values(|e: RunEventView| unheard(e)),
        ).console,
        is_failure(run_all(run_start(inputs, false), events).last) == is_failure(
            run_all(run_start(inputs, true), events.map_values(|e: RunEventView| unheard(e))).last,
        ),
        run_all(run_start(inputs, false), events).written == run_all(
            run_start(inputs, true),
            events.map_values(|e: RunEventView| unheard(e)),
        ).written,
        run_all(run_start(inputs, false), events).channel.len() == 0,
    decreases events.len(),
{
    let quiet = events.map_values(|e: RunEventView| unheard(e));
    if events.len() > 0 {
        lemma_run_discards_channel(inputs, events.drop_last());
        assert(quiet.drop_last() =~= events.drop_last().map_values(|e: RunEventView| unheard(e)));
        assert(quiet.last() == unheard(events.last()));
    }
}

/// The events of a run in which every chunk can be read and every write
/// goes through: for each chunk its arrival, then the completion of its
/// forwarding and of the write, or for the last chunk of the draining, that
/// follows it.
pub open spec fn smooth(chunks: Seq<Seq<char>>, listening: bool) -> Seq<RunEventView>
    decreases chunks.len(),
{
    if chunks.len() == 0 {
        Seq::empty()
    } else {
        smooth(chunks.drop_last(), listening).push(
            RunEventView::Chunk { text: Ok(chunks.last()), listening },
        ).push(RunEventView::Completed(true)).push(RunEventView::Completed(true))
    }
}

/// The transcript of such a run: each chunk as it was read, followed by the
/// input that answers it and one line feed.
pub open spec fn transcript(inputs: Seq<Seq<u8>>, chunks: Seq<Seq<char>>) -> Seq<u8>
    decreases chunks.len(),
{
    if chunks.len() == 0 {
        Seq::empty()
    } else {
        let echo = if chunks.len() - 1 < inputs.len() {
            inputs[chunks.len() - 1].push(0x0Au8)
        } else {
            Seq::empty()
        };
        transcript(inputs, chunks.drop_last()) + encode_utf8(chunks.last()) + echo
    }
}

/// The lines of all the chunks, in the order of the chunks.
pub open spec fn forwarded(chunks: Seq<Seq<char>>) -> Seq<Seq<char>>
    decreases chunks.len(),
{
    if chunks.len() == 0 {
        Seq::empty()
    } else {
        forwarded(chunks.drop_last()) + lines(chunks.last())
    }
}

/// Where a run stands after `done` chunks if nothing failed.
pub open spec fn stage_after(inputs: Seq<Seq<u8>>, done: nat) -> RunStage {
    if done <= inputs.len() {
        next_read(inputs, done).0
    } else {
        RunStage::Finished
    }
}

/// A run in which nothing fails reads a chunk before each input and one
/// after the last, writes the inputs in the order of the queue, mirrors
/// chunks and inputs on the console in the order in which they were read
/// and written, and forwards the lines of the chunks in that same order
/// while someone listens. With the chunk after the last input and the rest
/// of the stream it ends well.
pub proof fn lemma_smooth_run(inputs: Seq<Seq<u8>>, chunks: Seq<Seq<char>>, channel: bool)
    requires
        chunks.len() <= inputs.len() + 1,
    ensures
        run_all(run_start(inputs, channel), smooth(chunks, true)).state == (RunState {
            stage: stage_after(inputs, chunks.len()),
            inputs,
            taken: if chunks.len() <= inputs.len() {
                chunks.len()
            } else {
                inputs.len()
            },
            channel,
        }),
        run_all(run_start(inputs, channel), smooth(chunks, true)).console == transcript(
            inputs,
            chunks,
        ),
        run_all(run_start(inputs, channel), smooth(chunks, true)).channel == if channel {
            forwarded(chunks)
        } else {
            Seq::empty()
        },
        run_all(run_start(inputs, channel), smooth(chunks, true)).written == inputs.take(
            if chunks.len() <= inputs.len() {
                chunks.len() as int
            } else {
                inputs.len() as int
            },
        ),
        chunks.len() == inputs.len() + 1 ==> run_all(
            run_start(inputs, channel),
            smooth(chunks, true),
        ).last == Some(RunActionView::Done(Ok(()))),
    decreases chunks.len(),
{
    let start = run_start(inputs, channel);
    if chunks.len() > 0 {
        let earlier = chunks.drop_last();
        lemma_smooth_run(inputs, earlier, channel);
        let e0 = smooth(earlier, true);
        let arrived = RunEventView::Chunk { text: Ok(chunks.last()), listening: true };
        let e1 = e0.push(arrived);
        let e2 = e1.push(RunEventView::Completed(true));
        let e3 = e2.push(RunEventView::Completed(true));
        assert(e1.drop_last() =~= e0);
        assert(e2.drop_last() =~= e1);
        assert(e3.drop_last() =~= e2);
        let p0 = run_all(start, e0);
        let p1 = run_all(start, e1);
        let p2 = run_all(start, e2);
        let p3 = run_all(start, e3);
        assert(p1.state.stage == RunStage::Forwarding || p1.state.stage
            == RunStage::ForwardingLast);
        assert(p1.console =~= p0.console + encode_utf8(chunks.last()));
        if earlier.len() < inputs.len() {
            let echo = inputs[earlier.len() as int].push(0x0Au8);
            assert(p2.console =~= p0.console + encode_utf8(chunks.last()) + echo);
            assert(p3.console =~= p0.console + encode_utf8(chunks.last()) + echo);
        } else {
            assert(p2.console =~= p0.console + encode_utf8(chunks.last()));
            assert(p3.console =~= p0.console + encode_utf8(chunks.last()) + Seq::<u8>::empty());
        }
        if channel {
            assert(p1.channel =~= p0.channel + lines(chunks.last()));
        } else {
            assert(p1.channel =~= p0.channel);
        }
        assert(p2.channel =~= p1.channel);
        assert(p3.channel =~= p1.channel);
        assert(p1.written =~= p0.written);
        if earlier.len() < inputs.len() {
            assert(p2.written =~= p0.written.push(inputs[earlier.len() as int]));
            assert(p3.written =~= inputs.take(chunks.len() as int));
        } else {
            assert(p2.written =~= p0.written);
            assert(p3.written =~= p0.written);
        }
    } else {
        assert(inputs.take(0) =~= Seq::<Seq<u8>>::empty());
    }
}

} // verus!
