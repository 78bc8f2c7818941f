//! The lifecycle of a process spawned inside a remote session: how the
//! command is wrapped, under which name the process is looked up, how its
//! id is read from the search output, and in which order it is torn down.

use vstd::prelude::*;
use vstd::string::*;
use vstd::utf8::*;

use crate::error::Error;
use crate::text::{
    after_last, before_first, contains, decimal, decode, drop_trailing, find, keep, lead,
    lemma_keep_appended, lemma_keep_cuts, lemma_strip_wrapped, parse_decimal, parse_u32, render_decimal, skip_leading,
    strip, to_chars, CharClass,
};

verus! {

/// `s` with every line feed turned into `;`.
pub open spec fn joined(s: Seq<char>) -> Seq<char> {
    s.map_values(|c: char| if c == '\n' {
        ';'
    } else {
        c
    })
}

/// `s` with every `;` that a backslash escapes left bare, from left to
/// right.
pub open spec fn unescaped(s: Seq<char>) -> Seq<char>
    decreases s.len(),
{
    if s.len() >= 2 && s[0] == '\\' && s[1] == ';' {
        seq![';'] + unescaped(s.skip(2))
    } else if s.len() >= 1 {
        seq![s[0]] + unescaped(s.skip(1))
    } else {
        s
    }
}

/// The last statement of a command text by the rule in full: line feeds
/// count as `;`, an escaped `;` counts as a bare one, and the statement is
/// what follows the last `;`.
pub open spec fn last_statement(s: Seq<char>) -> Seq<char> {
    after_last(unescaped(joined(s)), CharClass::NotSemicolon)
}

/// Unescaping leaves a text without `;` as it is.
proof fn lemma_unescaped_plain(b: Seq<char>)
    requires
        forall|i: int| 0 <= i < b.len() ==> #[trigger] b[i] != ';',
    ensures
        unescaped(b) == b,
    decreases b.len(),
{
    if b.len() >= 1 {
        assert(b[0] != ';');
        if b.len() >= 2 {
            assert(b[1] != ';');
        }
        assert forall|i: int| 0 <= i < b.skip(1).len() implies #[trigger] b.skip(1)[i] != ';' by {
            assert(b.skip(1)[i] == b[i + 1]);
        }
        lemma_unescaped_plain(b.skip(1));
        assert(seq![b[0]] + b.skip(1) =~= b);
    }
}

/// Unescaping does not reach into a tail without `;`.
proof fn lemma_unescaped_tail(x: Seq<char>, b: Seq<char>)
    requires
        forall|i: int| 0 <= i < b.len() ==> #[trigger] b[i] != ';',
    ensures
        unescaped(x + b) == unescaped(x) + b,
    decreases x.len(),
{
    let whole = x + b;
    if x.len() == 0 {
        assert(whole =~= b);
        lemma_unescaped_plain(b);
        assert(unescaped(x) + b =~= b);
    } else if x.len() >= 2 && x[0] == '\\' && x[1] == ';' {
        assert(whole[0] == x[0] && whole[1] == x[1]);
        assert(whole.skip(2) =~= x.skip(2) + b);
        lemma_unescaped_tail(x.skip(2), b);
        assert(seq![';'] + (unescaped(x.skip(2)) + b) =~= (seq![';'] + unescaped(x.skip(2))) + b);
    } else {
        assert(whole[0] == x[0]);
        if whole.len() >= 2 {
            if x.len() >= 2 {
                assert(whole[1] == x[1]);
            } else {
                assert(whole[1] == b[0]);
            }
        }
        assert(whole.skip(1) =~= x.skip(1) + b);
        lemma_unescaped_tail(x.skip(1), b);
        assert(seq![x[0]] + (unescaped(x.skip(1)) + b) =~= (seq![x[0]] + unescaped(x.skip(1))) + b);
    }
}

/// Unescaping a text that ends with `;` gives a text that ends with `;`.
proof fn lemma_unescaped_end(x: Seq<char>)
    requires
        x.len() > 0,
        x.last() == ';',
    ensures
        unescaped(x).len() > 0,
        unescaped(x).last() == ';',
    decreases x.len(),
{
    if x.len() >= 2 && x[0] == '\\' && x[1] == ';' {
        let rest = unescaped(x.skip(2));
        if x.len() > 2 {
            assert(x.skip(2).last() == x.last());
            lemma_unescaped_end(x.skip(2));
            assert((seq![';'] + rest).last() == rest.last());
        } else {
            assert(x.skip(2).len() == 0);
            assert(seq![';'] + rest =~= seq![';']);
        }
    } else {
        let rest = unescaped(x.skip(1));
        if x.len() > 1 {
            assert(x.skip(1).last() == x.last());
            lemma_unescaped_end(x.skip(1));
            assert((seq![x[0]] + rest).last() == rest.last());
        } else {
            assert(x.skip(1).len() == 0);
            assert(seq![x[0]] + rest =~= seq![x[0]]);
        }
    }
}

/// The rule in full and the short one agree: the last statement is what
/// follows the last line feed or `;` of the text as it stands. Unescaping
/// takes a backslash away in front of a `;` only, which is never part of
/// what follows the last one.
pub proof fn lemma_last_statement(s: Seq<char>)
    ensures
        last_statement(s) == after_last(s, CharClass::NotSeparator),
{
    let k = keep(s, CharClass::NotSeparator);
    lemma_keep_cuts(s, CharClass::NotSeparator);
    let a = s.take(k);
    let b = s.skip(k);
    assert(s =~= a + b);
    assert(joined(s) =~= joined(a) + b);
    assert forall|i: int| 0 <= i < b.len() implies #[trigger] b[i] != ';' by {
        assert(b[i] == s[k + i]);
    }
    assert forall|i: int| 0 <= i < b.len() implies CharClass::NotSemicolon.holds(
        #[trigger] b[i],
    ) by {
        assert(b[i] == s[k + i]);
    }
    lemma_unescaped_tail(joined(a), b);
    let y = unescaped(joined(a));
    lemma_keep_appended(y, b, CharClass::NotSemicolon);
    if k > 0 {
        assert(joined(a).last() == ';');
        lemma_unescaped_end(joined(a));
    }
    assert(keep(y, CharClass::NotSemicolon) == y.len());
    assert((y + b).skip(y.len() as int) =~= b);
}

/// The program path inside a remote command text: quotes and then white
/// space are trimmed from the text, the last statement is kept and trimmed,
/// leading `.` and `/` are dropped, and what precedes the first blank is the
/// path.
pub open spec fn program_path(command: Seq<char>) -> Seq<char> {
    let unquoted = strip(command, CharClass::Quote);
    let trimmed = strip(unquoted, CharClass::Space);
    let statement = strip(last_statement(trimmed), CharClass::Space);
    let path = statement.skip(lead(statement, CharClass::PathMarker));
    before_first(path, CharClass::NotBlank)
}

/// The final component of a `/`-separated path. Empty components and `.`
/// are passed over; there is no file name where none is left or where the
/// component found is `..`.
pub open spec fn file_name(path: Seq<char>) -> Option<Seq<char>>
    decreases path.len(),
{
    let start = keep(path, CharClass::NotSlash);
    let last = path.skip(start);
    if last.len() == 0 || (last.len() == 1 && last[0] == '.') {
        if 0 < start <= path.len() {
            file_name(path.take(start - 1))
        } else {
            None
        }
    } else if last.len() == 2 && last[0] == '.' && last[1] == '.' {
        None
    } else {
        Some(last)
    }
}

/// The name under which the process started by `command` is looked up.
pub open spec fn inferred_name(command: Seq<char>) -> Option<Seq<char>> {
    file_name(program_path(command))
}

/// `s` between single quotes.
pub open spec fn quoted(s: Seq<char>) -> Seq<char> {
    seq!['\''] + s + seq!['\'']
}

/// Quotes around a command are stripped before anything else: the command
/// gives the same name with and without them.
pub proof fn lemma_quotes_are_stripped(command: Seq<char>)
    ensures
        inferred_name(quoted(command)) == inferred_name(command),
{
    lemma_strip_wrapped(command, '\'', CharClass::Quote);
}

/// Narrows `v[lo..hi]` by the characters of `k` at both ends.
fn trim(v: &Vec<char>, lo: usize, hi: usize, k: CharClass) -> (r: (usize, usize))
    requires
        lo <= hi <= v@.len(),
    ensures
        lo <= r.0 <= r.1 <= hi,
        v@.subrange(r.0 as int, r.1 as int) == strip(v@.subrange(lo as int, hi as int), k),
{
    let b = drop_trailing(v, lo, hi, k);
    let a = skip_leading(v, lo, b, k);
    proof {
        let s = v@.subrange(lo as int, hi as int);
        let t = s.take(keep(s, k));
        assert(t =~= v@.subrange(lo as int, b as int));
        assert(t.skip(lead(t, k)) =~= v@.subrange(a as int, b as int));
    }
    (a, b)
}

/// Finds the file name of the path `v[lo..hi]`.
fn file_name_range(v: &Vec<char>, lo: usize, hi: usize) -> (r: Option<(usize, usize)>)
    requires
        lo <= hi <= v@.len(),
    ensures
        match r {
            Some((a, b)) => lo <= a <= b <= hi && file_name(v@.subrange(lo as int, hi as int))
                == Some(v@.subrange(a as int, b as int)),
            None => file_name(v@.subrange(lo as int, hi as int)) is None,
        },
{
    let mut end: usize = hi;
    loop
        invariant
            lo <= end <= hi <= v@.len(),
            file_name(v@.subrange(lo as int, hi as int)) == file_name(
                v@.subrange(lo as int, end as int),
            ),
        decreases end - lo,
    {
        let start = drop_trailing(v, lo, end, CharClass::NotSlash);
        let len: usize = end - start;
        proof {
            let path = v@.subrange(lo as int, end as int);
            assert(path.skip(start - lo) =~= v@.subrange(start as int, end as int));
            if start > lo {
                assert(path.take(start - lo - 1) =~= v@.subrange(lo as int, start as int - 1));
            }
        }
        if len == 0 || (len == 1 && v[start] == '.') {
            if start == lo {
                return None;
            }
            end = start - 1;
        } else if len == 2 && v[start] == '.' && v[start + 1] == '.' {
            return None;
        } else {
            return Some((start, end));
        }
    }
}

/// Infers the name under which the process started by `command` can be
/// looked up on the remote host.
pub fn executable_name(command: &str) -> (r: Result<String, Error>)
    ensures
        match r {
            Ok(name) => inferred_name(command@) == Some(name@),
            Err(e) => e == Error::InvalidExecutableName && inferred_name(command@) is None,
        },
{
    let v = to_chars(command);
    let n: usize = v.len();
    proof {
        assert(v@.subrange(0, n as int) =~= command@);
    }
    let (a0, b0) = trim(&v, 0, n, CharClass::Quote);
    let (a1, b1) = trim(&v, a0, b0, CharClass::Space);
    let a2 = drop_trailing(&v, a1, b1, CharClass::NotSeparator);
    proof {
        let s = v@.subrange(a1 as int, b1 as int);
        lemma_last_statement(s);
        assert(after_last(s, CharClass::NotSeparator) =~= v@.subrange(a2 as int, b1 as int));
    }
    let (a3, b3) = trim(&v, a2, b1, CharClass::Space);
    let a4 = skip_leading(&v, a3, b3, CharClass::PathMarker);
    proof {
        let s = v@.subrange(a3 as int, b3 as int);
        assert(s.skip(lead(s, CharClass::PathMarker)) =~= v@.subrange(a4 as int, b3 as int));
    }
    let b5 = skip_leading(&v, a4, b3, CharClass::NotBlank);
    proof {
        let s = v@.subrange(a4 as int, b3 as int);
        assert(before_first(s, CharClass::NotBlank) =~= v@.subrange(a4 as int, b5 as int));
        assert(program_path(command@) == v@.subrange(a4 as int, b5 as int));
    }
    match file_name_range(&v, a4, b5) {
        Some((a, b)) => {
            let name = command.substring_char(a, b).to_owned();
            Ok(name)
        },
        None => Err(Error::InvalidExecutableName),
    }
}

/// A command that is run inside the session, as the program and its
/// arguments.
#[derive(Debug)]
pub struct RemoteCommand {
    pub program: String,
    pub args: Vec<String>,
}

/// A command as plain text: the program and its arguments.
pub ghost struct CommandLine {
    pub program: Seq<char>,
    pub args: Seq<Seq<char>>,
}

impl View for RemoteCommand {
    type V = CommandLine;

    open spec fn view(&self) -> CommandLine {
        CommandLine {
            program: self.program@,
            args: Seq::new(self.args@.len(), |i: int| self.args@[i]@),
        }
    }
}

/// The text whose presence in the probe's output tells a Linux kernel.
pub open spec fn linux_marker() -> Seq<char> {
    seq!['L', 'i', 'n', 'u', 'x']
}

/// Whether a probe outcome tells a Linux kernel: the probe ran, its output
/// is valid UTF-8 and holds the marker.
pub open spec fn tells_linux(probe: Option<Seq<u8>>) -> bool {
    match probe {
        Some(bytes) => valid_utf8(bytes) && contains(decode_utf8(bytes), linux_marker()),
        None => false,
    }
}

/// The shell text that is spawned for `command`: on Linux the command stands
/// verbatim inside a shell run with unbuffered output, elsewhere it is run
/// as it is.
pub open spec fn wrapped(command: Seq<char>, linux: bool) -> Seq<char> {
    if linux {
        "stdbuf -o0 sh -c '\n"@ + command + "\n'"@
    } else {
        command
    }
}

/// Where in a process listing the id stands: on the last line that a line
/// feed ends. What follows the last line feed is thrown away, and a listing
/// without a line feed names no process.
pub open spec fn listed_id(listing: Seq<char>) -> Option<Seq<char>> {
    let end = keep(listing, CharClass::NotNewline);
    if 0 < end <= listing.len() {
        Some(after_last(listing.take(end - 1), CharClass::NotNewline))
    } else {
        None
    }
}

/// The outcome of a process search: nothing is found off Linux or in a
/// listing that names no process, and the entry found has to be a number.
pub open spec fn discovered(linux: bool, listing: Seq<char>) -> Result<u32, Error> {
    if !linux {
        Err(Error::ProcessNotFound)
    } else {
        match listed_id(listing) {
            None => Err(Error::ProcessNotFound),
            Some(entry) => match parse_u32(entry) {
                Some(pid) => Ok(pid),
                None => Err(Error::MalformedPid),
            },
        }
    }
}

/// The command that probes the remote operating system.
pub fn probe_command() -> (r: RemoteCommand)
    ensures
        r@.program == "uname"@,
        r@.args.len() == 0,
{
    RemoteCommand { program: String::from_str("uname"), args: Vec::new() }
}

/// Decides from the outcome of the probe whether the remote host runs
/// Linux. `probe` is the probe's standard output, or `None` where the probe
/// could not be run.
pub fn is_linux(probe: &Option<Vec<u8>>) -> (r: bool)
    ensures
        r == tells_linux(
            match *probe {
                Some(bytes) => Some(bytes@),
                None => None,
            },
        ),
{
    match probe {
        Some(bytes) => match decode(bytes.as_slice()) {
            Some(text) => {
                let marker: Vec<char> = vec!['L', 'i', 'n', 'u', 'x'];
                assert(marker@ =~= linux_marker());
                let chars = to_chars(text);
                find(&chars, &marker)
            },
            None => false,
        },
        None => false,
    }
}

/// The shell text to spawn for `command`.
pub fn shell_command(command: &str, linux: bool) -> (r: String)
    ensures
        r@ == wrapped(command@, linux),
{
    if linux {
        let mut shell = String::from_str("stdbuf -o0 sh -c '\n");
        shell.append(command);
        shell.append("\n'");
        shell
    } else {
        String::from_str(command)
    }
}

/// The command that searches the remote host for processes called `name`.
pub fn search_command(name: &str) -> (r: RemoteCommand)
    ensures
        r@.program == "pgrep"@,
        r@.args =~= seq![name@],
{
    let mut args: Vec<String> = Vec::new();
    args.push(String::from_str(name));
    RemoteCommand { program: String::from_str("pgrep"), args }
}

/// The command that forcibly ends the process `pid`.
pub fn kill_command(pid: u32) -> (r: RemoteCommand)
    ensures
        r@.program == "kill"@,
        r@.args =~= seq!["-9"@, decimal(pid as nat)],
{
    let mut args: Vec<String> = Vec::new();
    args.push(String::from_str("-9"));
    args.push(render_decimal(pid));
    RemoteCommand { program: String::from_str("kill"), args }
}

/// Reads the process id from the output of the process search. `linux` is
/// what the probe told; off Linux nothing is looked up and the listing is
/// not read.
pub fn read_pid(linux: bool, listing: &str) -> (r: Result<u32, Error>)
    ensures
        r == discovered(linux, listing@),
        !linux ==> r == Err::<u32, Error>(Error::ProcessNotFound),
{
    if !linux {
        return Err(Error::ProcessNotFound);
    }
    let v = to_chars(listing);
    let n: usize = v.len();
    proof {
        assert(v@.subrange(0, n as int) =~= listing@);
    }
    let end = drop_trailing(&v, 0, n, CharClass::NotNewline);
    if end == 0 {
        return Err(Error::ProcessNotFound);
    }
    let start = drop_trailing(&v, 0, end - 1, CharClass::NotNewline);
    proof {
        let head = listing@.take(end - 1);
        assert(head =~= v@.subrange(0, end - 1));
        assert(after_last(head, CharClass::NotNewline) =~= v@.subrange(
            start as int,
            end - 1,
        ));
    }
    match parse_decimal(&v, start, end - 1) {
        Some(pid) => Ok(pid),
        None => Err(Error::MalformedPid),
    }
}

/// Where a remote process stands in its life.
#[derive(Clone, Copy, Debug, PartialEq, Eq, Structural)]
pub enum Phase {
    /// Nothing has been opened yet.
    Disconnected,
    /// The session is being established and the process spawned in it.
    Connecting,
    /// The process runs inside the open session.
    Connected,
    /// The process is being ended and the session closed.
    Closing,
    /// The session is gone.
    Closed,
}

/// One step of tearing a remote process down.
#[derive(Debug)]
pub enum CloseStep {
    /// Run this command inside the session.
    Kill(RemoteCommand),
    /// Close the session.
    CloseSession,
}

/// A step of tearing down, as plain text.
pub ghost enum CloseStepView {
    Kill(CommandLine),
    CloseSession,
}

impl View for CloseStep {
    type V = CloseStepView;

    open spec fn view(&self) -> CloseStepView {
        match self {
            CloseStep::Kill(command) => CloseStepView::Kill(command@),
            CloseStep::CloseSession => CloseStepView::CloseSession,
        }
    }
}

/// The steps that tear a remote process down, given what the search for its
/// id gave: the process is killed where it was found, and the session is
/// closed last in either case.
pub open spec fn teardown(pid: Result<u32, Error>) -> Seq<CloseStepView> {
    match pid {
        Ok(id) => seq![
            CloseStepView::Kill(
                CommandLine { program: "kill"@, args: seq!["-9"@, decimal(id as nat)] },
            ),
            CloseStepView::CloseSession,
        ],
        Err(_) => seq![CloseStepView::CloseSession],
    }
}

/// The manager of one process spawned inside a remote session. It keeps the
/// command text, the name under which the process is looked up, and the
/// phase of the process's life; the session and the process themselves stay
/// with the caller, who carries out what the manager asks for.
#[derive(Debug)]
pub struct SSH {
    phase: Phase,
    command: String,
    name: Option<String>,
}

impl SSH {
    /// The phase of the process's life.
    pub closed spec fn phase(&self) -> Phase {
        self.phase
    }

    /// The text of the command to run remotely.
    pub closed spec fn command(&self) -> Seq<char> {
        self.command@
    }

    /// The name under which the process is looked up, once it is known.
    pub closed spec fn name(&self) -> Option<Seq<char>> {
        match self.name {
            Some(name) => Some(name@),
            None => None,
        }
    }

    /// A name that is known is the one inferred from the command, and it is
    /// known for as long as the process runs.
    pub open spec fn wf(&self) -> bool {
        &&& self.name() is Some ==> self.name() == inferred_name(self.command())
        &&& (self.phase() == Phase::Connected || self.phase() == Phase::Closing)
            ==> self.name() is Some
    }

    /// A manager for `command`, with nothing opened yet.
    pub fn new(command: &str) -> (r: SSH)
        ensures
            r.phase() == Phase::Disconnected,
            r.command() == command@,
            r.name() is None,
            r.wf(),
    {
        SSH { phase: Phase::Disconnected, command: String::from_str(command), name: None }
    }

    /// The current phase.
    pub fn current_phase(&self) -> (r: Phase)
        ensures
            r == self.phase(),
    {
        self.phase
    }

    /// The name under which the process is looked up, once it is known.
    pub fn process_name(&self) -> (r: Option<&str>)
        ensures
            match r {
                Some(name) => self.name() == Some(name@),
                None => self.name() is None,
            },
    {
        match &self.name {
            Some(name) => Some(name.as_str()),
            None => None,
        }
    }

    /// Starts connecting: the caller now establishes the session.
    pub fn open(&mut self)
        requires
            old(self).wf(),
            old(self).phase() == Phase::Disconnected,
        ensures
            final(self).phase() == Phase::Connecting,
            final(self).command() == old(self).command(),
            final(self).name() == old(self).name(),
            final(self).wf(),
    {
        self.phase = Phase::Connecting;
    }

    /// The session could not be established, or the process could not be
    /// spawned in it: nothing is kept.
    pub fn refused(&mut self) -> (e: Error)
        requires
            old(self).wf(),
            old(self).phase() == Phase::Connecting,
        ensures
            e == Error::SessionEstablish,
            final(self).phase() == Phase::Closed,
            final(self).command() == old(self).command(),
            final(self).wf(),
    {
        self.phase = Phase::Closed;
        Error::SessionEstablish
    }

    /// The session is open: infers the name of the process from the command
    /// text and hands back the command that probes the remote system.
    /// Without a name the connection is given up before anything is run.
    pub fn session_opened(&mut self) -> (r: Result<RemoteCommand, Error>)
        requires
            old(self).wf(),
            old(self).phase() == Phase::Connecting,
        ensures
            final(self).command() == old(self).command(),
            final(self).wf(),
            match r {
                Ok(probe) => {
                    &&& final(self).name() is Some
                    &&& final(self).phase() == Phase::Connecting
                    &&& probe@.program == "uname"@
                    &&& probe@.args.len() == 0
                },
                Err(e) => {
                    &&& e == Error::InvalidExecutableName
                    &&& inferred_name(old(self).command()) is None
                    &&& final(self).phase() == Phase::Closed
                },
            },
    {
        match executable_name(self.command.as_str()) {
            Ok(name) => {
                self.name = Some(name);
                Ok(probe_command())
            },
            Err(e) => {
                self.name = None;
                self.phase = Phase::Closed;
                Err(e)
            },
        }
    }

    /// The shell text to spawn, given the outcome of the probe.
    pub fn spawn(&self, probe: &Option<Vec<u8>>) -> (shell: String)
        requires
            self.phase() == Phase::Connecting,
        ensures
            shell@ == wrapped(
                self.command(),
                tells_linux(
                    match *probe {
                        Some(bytes) => Some(bytes@),
                        None => None,
                    },
                ),
            ),
    {
        shell_command(self.command.as_str(), is_linux(probe))
    }

    /// The process was spawned with both of its streams piped.
    pub fn spawned(&mut self)
        requires
            old(self).wf(),
            old(self).phase() == Phase::Connecting,
            old(self).name() is Some,
        ensures
            final(self).phase() == Phase::Connected,
            final(self).command() == old(self).command(),
            final(self).name() == old(self).name(),
            final(self).wf(),
    {
        self.phase = Phase::Connected;
    }

    /// The command that searches the remote host for the process, given the
    /// outcome of the probe. Off Linux there is none: no search is made.
    pub fn search(&self, probe: &Option<Vec<u8>>) -> (r: Option<RemoteCommand>)
        requires
            self.wf(),
            self.phase() == Phase::Connected,
        ensures
            r is Some <==> tells_linux(
                match *probe {
                    Some(bytes) => Some(bytes@),
                    None => None,
                },
            ),
            r matches Some(command) ==> {
                &&& command@.program == "pgrep"@
                &&& command@.args =~= seq![self.name()->0]
                &&& inferred_name(self.command()) == Some(command@.args[0])
            },
    {
        if !is_linux(probe) {
            return None;
        }
        match &self.name {
            Some(name) => Some(search_command(name.as_str())),
            None => vstd::pervasive::unreached(),
        }
    }

    /// The id of the process, from the outcome of the probe and the output
    /// of the search. Off Linux none is found, whatever `listing` holds.
    pub fn get_pid(&self, probe: &Option<Vec<u8>>, listing: &str) -> (r: Result<u32, Error>)
        requires
            self.phase() == Phase::Connected,
        ensures
            r == discovered(
                tells_linux(
                    match *probe {
                        Some(bytes) => Some(bytes@),
                        None => None,
                    },
                ),
                listing@,
            ),
    {
        read_pid(is_linux(probe), listing)
    }

    /// Starts tearing down, given what the search for the process's id gave.
    /// The steps are to be carried out in order, each whatever became of the
    /// one before.
    pub fn close(&mut self, pid: Result<u32, Error>) -> (steps: Vec<CloseStep>)
        requires
            old(self).wf(),
            old(self).phase() == Phase::Connected,
        ensures
            final(self).phase() == Phase::Closing,
            final(self).command() == old(self).command(),
            final(self).name() == old(self).name(),
            final(self).wf(),
            steps@.len() == teardown(pid).len(),
            forall|i: int| 0 <= i < steps@.len() ==> (#[trigger] steps@[i])@ == teardown(pid)[i],
    {
        self.phase = Phase::Closing;
        let mut steps: Vec<CloseStep> = Vec::new();
        if let Ok(id) = pid {
            let kill = kill_command(id);
            assert(kill@ =~= CommandLine { program: "kill"@, args: seq!["-9"@, decimal(id as nat)] });
            steps.push(CloseStep::Kill(kill));
        }
        steps.push(CloseStep::CloseSession);
        steps
    }

    /// Ends tearing down. `killed` and `session_closed` say whether each step
    /// went through (a kill that was not asked for went through); a failure
    /// of either is reported, and the session is gone in any case.
    pub fn closed(&mut self, killed: bool, session_closed: bool) -> (r: Result<(), Error>)
        requires
            old(self).wf(),
            old(self).phase() == Phase::Closing,
        ensures
            final(self).phase() == Phase::Closed,
            final(self).command() == old(self).command(),
            final(self).wf(),
            r is Ok <==> killed && session_closed,
            r matches Err(e) ==> e == Error::TransportIo,
    {
        self.phase = Phase::Closed;
        if killed && session_closed {
            Ok(())
        } else {
            Err(Error::TransportIo)
        }
    }
}

/// Off Linux no process is ever found, whatever the search would list.
pub proof fn lemma_no_pid_off_linux(listing: Seq<char>)
    ensures
        discovered(false, listing) == Err::<u32, Error>(Error::ProcessNotFound),
{
}

/// Tearing down always ends with closing the session; the process is killed
/// first exactly where its id was found, and nothing else is done.
pub proof fn lemma_teardown_order(pid: Result<u32, Error>)
    ensures
        teardown(pid).last() == CloseStepView::CloseSession,
        pid is Ok ==> teardown(pid).len() == 2 && teardown(pid)[0] is Kill,
        pid is Err ==> teardown(pid).len() == 1,
{
}

} // verus!
