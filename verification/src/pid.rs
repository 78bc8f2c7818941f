//! Finding the id of the process behind an interaction and showing it to
//! the operator.

use vstd::prelude::*;
use vstd::string::*;

use crate::error::Error;
use crate::text::{decimal, render_decimal};

verus! {

/// The id of a process spawned on this machine: the id that the operating
/// system gave it, which is gone once the process has exited.
pub fn get_pid(id: Option<u32>) -> (r: Result<u32, Error>)
    ensures
        r == match id {
            Some(pid) => Ok::<u32, Error>(pid),
            None => Err::<u32, Error>(Error::ProcessNotFound),
        },
{
    match id {
        Some(pid) => Ok(pid),
        None => Err(Error::ProcessNotFound),
    }
}

/// What the operator is shown before the interaction goes on.
#[derive(Debug)]
pub struct Leak {
    /// The line that reports the process id, or why there is none.
    pub report: String,
    /// The line that asks for confirmation; the interaction waits until the
    /// operator has given it.
    pub prompt: String,
}

/// The line that reports the outcome of looking for the process id.
pub open spec fn report_line(pid: Result<u32, Error>) -> Seq<char> {
    match pid {
        Ok(id) => "PID is "@ + decimal(id as nat),
        Err(e) => "Failed to retrieve PID with error: "@ + e.description(),
    }
}

/// The lines to show the operator for the outcome of looking for the
/// process id. A failure is reported like an id: the operator is asked to
/// confirm in either case.
pub fn leak_pid(pid: Result<u32, Error>) -> (r: Leak)
    ensures
        r.report@ == report_line(pid),
        r.prompt@ == "[Press ENTER to continue]"@,
{
    let report = match pid {
        Ok(id) => {
            let number = render_decimal(id);
            String::from_str("PID is ").concat(number.as_str())
        },
        Err(e) => {
            let words = e.describe();
            String::from_str("Failed to retrieve PID with error: ").concat(words.as_str())
        },
    };
    Leak { report, prompt: String::from_str("[Press ENTER to continue]") }
}

} // verus!
