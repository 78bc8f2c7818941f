//! Cutting a byte stream into chunks by idle time.
//!
//! The stream has no framing, so a chunk ends where nothing arrived for a
//! number of idle windows in a row. The reader here decides; the caller
//! performs each read the reader asks for and feeds it what happened.

use vstd::prelude::*;
use vstd::string::*;
use vstd::utf8::*;

use crate::error::Error;
use crate::text::decode;

verus! {

/// Where a reader stands.
#[derive(Clone, Copy, Debug, PartialEq, Eq, Structural)]
pub enum Stage {
    /// The first byte of the chunk is awaited.
    AwaitFirst,
    /// Bytes are accumulated until the stream falls idle.
    Reading,
    /// The chunk is complete.
    Finished,
}

/// What a read gave.
#[derive(Clone, Copy, Debug, PartialEq, Eq, Structural)]
pub enum ReadEvent {
    /// One byte arrived.
    Byte(u8),
    /// The idle window passed without a byte, or the read failed.
    Idle,
}

/// How the next byte is to be awaited.
#[derive(Clone, Copy, Debug, PartialEq, Eq, Structural)]
pub enum Wait {
    /// For as long as it takes: no time limit applies.
    Unbounded,
    /// For one idle window at most.
    IdleWindow,
}

/// The state of a reader as plain values.
pub ghost struct ReaderState {
    pub stage: Stage,
    /// The number of debounce slots.
    pub repeat: nat,
    /// How many of the slots are marked as dropped.
    pub marked: nat,
    /// The bytes accumulated so far, in the order of their arrival.
    pub bytes: Seq<u8>,
}

/// The state in which a reader starts.
pub open spec fn initial(stage: Stage, repeat: nat) -> ReaderState {
    ReaderState { stage, repeat, marked: 0, bytes: Seq::empty() }
}

/// The state after one event.
///
/// While the first byte is awaited nothing but a byte moves the reader.
/// Afterwards a byte is appended and clears every debounce slot, and an idle
/// window marks the first free slot; the window that marks the last one
/// ends the chunk.
pub open spec fn step(s: ReaderState, e: ReadEvent) -> ReaderState {
    match s.stage {
        Stage::AwaitFirst => match e {
            ReadEvent::Byte(b) => ReaderState { stage: Stage::Reading, bytes: s.bytes.push(b), ..s },
            ReadEvent::Idle => s,
        },
        Stage::Reading => match e {
            ReadEvent::Byte(b) => ReaderState { marked: 0, bytes: s.bytes.push(b), ..s },
            ReadEvent::Idle => if s.marked + 1 < s.repeat {
                ReaderState { marked: s.marked + 1, ..s }
            } else {
                ReaderState { stage: Stage::Finished, marked: s.repeat, ..s }
            },
        },
        Stage::Finished => s,
    }
}

/// The state after a sequence of events.
pub open spec fn feed_all(s: ReaderState, events: Seq<ReadEvent>) -> ReaderState
    decreases events.len(),
{
    if events.len() == 0 {
        s
    } else {
        step(feed_all(s, events.drop_last()), events.last())
    }
}

/// The text of a complete chunk: all of its bytes decoded as one, in the
/// order of their arrival, where they are valid UTF-8.
pub open spec fn chunk_text(s: ReaderState) -> Result<Seq<char>, Error> {
    if valid_utf8(s.bytes) {
        Ok(decode_utf8(s.bytes))
    } else {
        Err(Error::Utf8Decode)
    }
}

/// The number of idle windows in a row that end a chunk: one for each
/// debounce slot, and one where there is no slot at all.
pub open spec fn patience(repeat: nat) -> nat {
    if repeat == 0 {
        1
    } else {
        repeat
    }
}

/// The events of a burst of bytes that arrive without an idle window
/// between them.
pub open spec fn burst(bytes: Seq<u8>) -> Seq<ReadEvent> {
    Seq::new(bytes.len(), |i: int| ReadEvent::Byte(bytes[i]))
}

/// The events of `k` idle windows in a row.
pub open spec fn silence(k: nat) -> Seq<ReadEvent> {
    Seq::new(k, |i: int| ReadEvent::Idle)
}

/// A reader of one chunk.
#[derive(Debug)]
pub struct ChunkReader {
    stage: Stage,
    repeat: usize,
    marked: usize,
    bytes: Vec<u8>,
}

impl View for ChunkReader {
    type V = ReaderState;

    closed spec fn view(&self) -> ReaderState {
        ReaderState {
            stage: self.stage,
            repeat: self.repeat as nat,
            marked: self.marked as nat,
            bytes: self.bytes@,
        }
    }
}

impl ChunkReader {
    /// A reader that waits for the first byte of its chunk without a time
    /// limit. `repeat` is the number of debounce slots.
    pub fn read_chunk(repeat: usize) -> (r: ChunkReader)
        ensures
            r@ == initial(Stage::AwaitFirst, repeat as nat),
    {
        ChunkReader { stage: Stage::AwaitFirst, repeat, marked: 0, bytes: Vec::new() }
    }

    /// A reader whose every byte is bound by the idle window, the first one
    /// too.
    pub fn read_last_chunk(repeat: usize) -> (r: ChunkReader)
        ensures
            r@ == initial(Stage::Reading, repeat as nat),
    {
        ChunkReader { stage: Stage::Reading, repeat, marked: 0, bytes: Vec::new() }
    }

    /// The read to perform next, if the chunk is not complete.
    pub fn wanted(&self) -> (r: Option<Wait>)
        ensures
            r == match self@.stage {
                Stage::AwaitFirst => Some(Wait::Unbounded),
                Stage::Reading => Some(Wait::IdleWindow),
                Stage::Finished => None::<Wait>,
            },
    {
        match self.stage {
            Stage::AwaitFirst => Some(Wait::Unbounded),
            Stage::Reading => Some(Wait::IdleWindow),
            Stage::Finished => None,
        }
    }

    /// Whether the chunk is complete.
    pub fn is_finished(&self) -> (r: bool)
        ensures
            r == (self@.stage == Stage::Finished),
    {
        self.stage == Stage::Finished
    }

    /// Takes in what the last read gave.
    pub fn feed(&mut self, event: ReadEvent)
        ensures
            final(self)@ == step(old(self)@, event),
    {
        match self.stage {
            Stage::AwaitFirst => match event {
                ReadEvent::Byte(b) => {
                    self.bytes.push(b);
                    self.stage = Stage::Reading;
                },
                ReadEvent::Idle => {},
            },
            Stage::Reading => match event {
                ReadEvent::Byte(b) => {
                    self.marked = 0;
                    self.bytes.push(b);
                },
                ReadEvent::Idle => {
                    if self.repeat > 0 && self.marked < self.repeat - 1 {
                        self.marked = self.marked + 1;
                    } else {
                        self.marked = self.repeat;
                        self.stage = Stage::Finished;
                    }
                },
            },
            Stage::Finished => {},
        }
    }

    /// The text of the complete chunk. Nothing of it is handed out where its
    /// bytes are not valid UTF-8.
    pub fn finish(self) -> (r: Result<String, Error>)
        requires
            self@.stage == Stage::Finished,
        ensures
            match r {
                Ok(text) => chunk_text(self@) == Ok::<Seq<char>, Error>(text@),
                Err(e) => chunk_text(self@) == Err::<Seq<char>, Error>(e),
            },
    {
        match decode(self.bytes.as_slice()) {
            Some(text) => Ok(String::from_str(text)),
            None => Err(Error::Utf8Decode),
        }
    }
}

/// Bytes that arrive without an idle window between them all end up in one
/// chunk, in the order of their arrival, and do not end it.
pub proof fn lemma_burst_accumulates(s: ReaderState, bytes: Seq<u8>)
    requires
        s.stage == Stage::Reading,
    ensures
        feed_all(s, burst(bytes)) == (ReaderState {
            marked: if bytes.len() > 0 {
                0
            } else {
                s.marked
            },
            bytes: s.bytes + bytes,
            ..s
        }),
    decreases bytes.len(),
{
    if bytes.len() == 0 {
        assert(s.bytes + bytes =~= s.bytes);
    } else {
        let front = bytes.drop_last();
        lemma_burst_accumulates(s, front);
        assert(burst(bytes).drop_last() =~= burst(front));
        assert(burst(bytes).last() == ReadEvent::Byte(bytes.last()));
        assert((s.bytes + front).push(bytes.last()) =~= s.bytes + bytes);
    }
}

/// A chunk that is read from its first byte on holds that byte and
/// everything that follows it without an idle window, and is still open.
pub proof fn lemma_chunk_holds_burst(repeat: nat, first: u8, rest: Seq<u8>)
    ensures
        feed_all(initial(Stage::AwaitFirst, repeat), burst(seq![first] + rest)) == (ReaderState {
            stage: Stage::Reading,
            repeat,
            marked: 0,
            bytes: seq![first] + rest,
        }),
    decreases rest.len(),
{
    let start = initial(Stage::AwaitFirst, repeat);
    let all = seq![first] + rest;
    if rest.len() == 0 {
        assert(burst(all).drop_last() =~= Seq::<ReadEvent>::empty());
        assert(burst(all).last() == ReadEvent::Byte(first));
        assert(feed_all(start, burst(all).drop_last()) == start);
        assert(start.bytes.push(first) =~= all);
    } else {
        let front = rest.drop_last();
        lemma_chunk_holds_burst(repeat, first, front);
        assert(burst(all).drop_last() =~= burst(seq![first] + front));
        assert(burst(all).last() == ReadEvent::Byte(rest.last()));
        assert((seq![first] + front).push(rest.last()) =~= all);
    }
}

/// After a byte, fewer idle windows in a row than there are debounce slots
/// leave the chunk open, and they mark one slot each.
pub proof fn lemma_silence_tolerated(s: ReaderState, k: nat)
    requires
        s.stage == Stage::Reading,
        s.marked == 0,
        k < s.repeat,
    ensures
        feed_all(s, silence(k)) == (ReaderState { marked: k, ..s }),
    decreases k,
{
    if k > 0 {
        lemma_silence_tolerated(s, (k - 1) as nat);
        assert(silence(k).drop_last() =~= silence((k - 1) as nat));
    }
}

/// Data that comes back after fewer idle windows in a row than there are
/// debounce slots is appended to the same chunk and clears every slot.
pub proof fn lemma_renewed_data_continues(s: ReaderState, k: nat, b: u8)
    requires
        s.stage == Stage::Reading,
        s.marked == 0,
        k < s.repeat,
    ensures
        feed_all(s, silence(k).push(ReadEvent::Byte(b))) == (ReaderState {
            bytes: s.bytes.push(b),
            ..s
        }),
{
    lemma_silence_tolerated(s, k);
    assert(silence(k).push(ReadEvent::Byte(b)).drop_last() =~= silence(k));
}

/// As many idle windows in a row as there are debounce slots end the chunk,
/// with the bytes accumulated so far; without any slot the first idle
/// window ends it.
pub proof fn lemma_silence_ends_chunk(s: ReaderState)
    requires
        s.stage == Stage::Reading,
        s.marked == 0,
    ensures
        feed_all(s, silence(patience(s.repeat))) == (ReaderState {
            stage: Stage::Finished,
            marked: s.repeat,
            ..s
        }),
{
    let k = patience(s.repeat);
    let before = silence((k - 1) as nat);
    assert(silence(k).drop_last() =~= before);
    assert(silence(k).last() == ReadEvent::Idle);
    if s.repeat > 0 {
        lemma_silence_tolerated(s, (k - 1) as nat);
    } else {
        assert(before.len() == 0);
        assert(feed_all(s, before) == s);
    }
}

/// Nothing that happens after the end of a chunk changes it: bytes that
/// arrive later are no part of it.
pub proof fn lemma_finished_stays(s: ReaderState, events: Seq<ReadEvent>)
    requires
        s.stage == Stage::Finished,
    ensures
        feed_all(s, events) == s,
    decreases events.len(),
{
    if events.len() > 0 {
        lemma_finished_stays(s, events.drop_last());
    }
}

/// Bytes that arrive without an idle window between them are returned as one
/// chunk, all of them and in order, once the stream has fallen silent: where
/// they are valid UTF-8 the chunk is their text.
pub proof fn lemma_burst_is_one_chunk(repeat: nat, first: u8, rest: Seq<u8>)
    requires
        valid_utf8(seq![first] + rest),
    ensures
        feed_all(
            feed_all(initial(Stage::AwaitFirst, repeat), burst(seq![first] + rest)),
            silence(patience(repeat)),
        ).stage == Stage::Finished,
        chunk_text(
            feed_all(
                feed_all(initial(Stage::AwaitFirst, repeat), burst(seq![first] + rest)),
                silence(patience(repeat)),
            ),
        ) == Ok::<Seq<char>, Error>(decode_utf8(seq![first] + rest)),
{
    lemma_chunk_holds_burst(repeat, first, rest);
    let read = feed_all(initial(Stage::AwaitFirst, repeat), burst(seq![first] + rest));
    lemma_silence_ends_chunk(read);
}

/// No number of idle windows moves a reader that waits for its first byte:
/// that wait has no time limit.
pub proof fn lemma_first_byte_never_times_out(repeat: nat, k: nat)
    ensures
        feed_all(initial(Stage::AwaitFirst, repeat), silence(k)) == initial(
            Stage::AwaitFirst,
            repeat,
        ),
    decreases k,
{
    if k > 0 {
        lemma_first_byte_never_times_out(repeat, (k - 1) as nat);
        assert(silence(k).drop_last() =~= silence((k - 1) as nat));
    }
}

} // verus!
