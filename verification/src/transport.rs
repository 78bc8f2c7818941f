//! The kinds of connection and the timing that each is read with.

use vstd::prelude::*;

use crate::chunk::{initial, ChunkReader, Stage};
use crate::run::{next_read, queue, run_start, RunAction, RunLoop};

verus! {

/// A stream that reacts to input, read in chunks that idle time delimits.
///
/// An implementation fixes the timing of its kind of connection; reading
/// and running are the same for all of them.
pub trait Interaction {
    /// The length of one idle window, in milliseconds.
    spec fn timeout(&self) -> u64;

    /// The number of debounce slots.
    spec fn repeat(&self) -> usize;

    /// The length of one idle window, in milliseconds.
    fn timeout_millis(&self) -> (r: u64)
        ensures
            r == self.timeout(),
    ;

    /// The number of idle windows in a row that end a chunk.
    fn repeat_count(&self) -> (r: usize)
        ensures
            r == self.repeat(),
    ;

    /// A reader for one chunk, whose first byte is awaited without a
    /// limit.
    fn read_chunk(&self) -> (r: ChunkReader)
        ensures
            r@ == initial(Stage::AwaitFirst, self.repeat() as nat),
    {
        ChunkReader::read_chunk(self.repeat_count())
    }

    /// A reader for the last chunk, whose every byte is bound by the idle
    /// window.
    fn read_last_chunk(&self) -> (r: ChunkReader)
        ensures
            r@ == initial(Stage::Reading, self.repeat() as nat),
    {
        ChunkReader::read_last_chunk(self.repeat_count())
    }

    /// A run over `inputs` that forwards every chunk on a channel, and the
    /// first thing to do.
    fn run_with_channel(&self, inputs: Vec<Vec<u8>>) -> (r: (RunLoop, RunAction))
        ensures
            r.0@ == run_start(queue(inputs@), true),
            r.1@ == next_read(queue(inputs@), 0).1,
            r.0.wf(),
    {
        RunLoop::start(inputs, true)
    }

    /// A run over `inputs` without a channel, and the first thing to do.
    fn run(&self, inputs: Vec<Vec<u8>>) -> (r: (RunLoop, RunAction))
        ensures
            r.0@ == run_start(queue(inputs@), false),
            r.1@ == next_read(queue(inputs@), 0).1,
            r.0.wf(),
    {
        RunLoop::start(inputs, false)
    }
}

/// A kind of connection to an executable.
#[derive(Clone, Copy, Debug, PartialEq, Eq, Structural)]
pub enum Transport {
    /// A raw TCP socket.
    Socket,
    /// A child process spawned on this machine.
    LocalProcess,
    /// A process spawned inside a session on a remote host.
    RemoteProcess,
}

impl Interaction for Transport {
    open spec fn timeout(&self) -> u64 {
        match self {
            Transport::Socket => 50,
            Transport::LocalProcess => 0,
            Transport::RemoteProcess => 50,
        }
    }

    open spec fn repeat(&self) -> usize {
        match self {
            Transport::Socket => 5,
            Transport::LocalProcess => 1,
            Transport::RemoteProcess => 3,
        }
    }

    fn timeout_millis(&self) -> (r: u64) {
        match self {
            Transport::Socket => 50,
            Transport::LocalProcess => 0,
            Transport::RemoteProcess => 50,
        }
    }

    fn repeat_count(&self) -> (r: usize) {
        match self {
            Transport::Socket => 5,
            Transport::LocalProcess => 1,
            Transport::RemoteProcess => 3,
        }
    }
}

} // verus!
