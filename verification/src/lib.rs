//! Driving an executable as a stream of bytes: segmenting what it sends into
//! idle-delimited chunks, running request/response transactions over it,
//! and managing the lifecycle of a process spawned inside a remote session.
//!
//! Every decision lives here as a function from plain values to plain
//! values; the caller performs the reads, writes and remote commands that
//! these functions ask for and hands back what happened.

pub mod chunk;
pub mod error;
pub mod pid;
pub mod run;
pub mod ssh;
pub mod text;
pub mod transport;
pub mod util;

pub use crate::error::Error;
pub use crate::ssh::SSH;
pub use crate::transport::{Interaction, Transport};
pub use crate::util::{HexToBytes, HexToBytesError, Pad, Repeat, Side};
