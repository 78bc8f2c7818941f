use libspl::error::Error;
use libspl::run::{split_lines, RunAction, RunEvent, RunLoop, RunStage};
use libspl::transport::{Interaction, Transport};

/// A transport that answers each read with the next of `replies`, together
/// with everything the run loop sent and wrote.
struct Script {
    replies: Vec<Result<String, Error>>,
    listening: bool,
    with_channel: bool,
    channel: Vec<String>,
    console: Vec<u8>,
    written: Vec<Vec<u8>>,
    reads: Vec<&'static str>,
    drained: bool,
}

impl Script {
    fn new(replies: &[&str], listening: bool) -> Script {
        Script {
            replies: replies.iter().rev().map(|r| Ok(r.to_string())).collect(),
            listening,
            with_channel: true,
            channel: Vec::new(),
            console: Vec::new(),
            written: Vec::new(),
            reads: Vec::new(),
            drained: false,
        }
    }

    fn reply(&mut self) -> RunEvent {
        let text = self.replies.pop().unwrap_or(Ok(String::new()));
        RunEvent::Chunk { text, listening: self.listening }
    }

    fn drive(&mut self, inputs: &[&[u8]]) -> Result<(), Error> {
        let queue: Vec<Vec<u8>> = inputs.iter().map(|i| i.to_vec()).collect();
        let (mut run, mut action) = if self.with_channel {
            Transport::Socket.run_with_channel(queue)
        } else {
            Transport::Socket.run(queue)
        };
        loop {
            let event = match action {
                RunAction::ReadChunk => {
                    self.reads.push("chunk");
                    self.reply()
                }
                RunAction::ReadLastChunk => {
                    self.reads.push("last");
                    self.reply()
                }
                RunAction::Forward { lines, mirror } => {
                    self.channel.extend(lines);
                    self.console.extend(mirror);
                    RunEvent::Completed(true)
                }
                RunAction::Write { transport, console } => {
                    self.written.push(transport);
                    self.console.extend(console);
                    RunEvent::Completed(true)
                }
                RunAction::Drain => {
                    self.drained = true;
                    RunEvent::Completed(true)
                }
                RunAction::Done(result) => {
                    assert_eq!(run.stage(), RunStage::Finished);
                    return result;
                }
            };
            action = run.advance(event);
        }
    }
}

fn contains(haystack: &[u8], needle: &[u8]) -> bool {
    haystack.windows(needle.len()).any(|w| w == needle)
}

#[test]
fn ping_pong_round_trip() {
    let mut script = Script::new(&["pong"], true);
    assert_eq!(script.drive(&[b"ping"]), Ok(()));
    assert_eq!(script.channel, vec![String::from("pong")]);
    assert!(contains(&script.console, b"pong"));
    assert!(contains(&script.console, b"ping\n"));
    assert_eq!(script.console, b"pongping\n".to_vec());
    assert_eq!(script.written, vec![b"ping".to_vec()]);
    assert_eq!(script.reads, vec!["chunk", "last"]);
    assert!(script.drained);
}

#[test]
fn transactions_alternate_chunk_and_write() {
    let mut script = Script::new(&["name?\n", "age?\n", "bye\n"], true);
    assert_eq!(script.drive(&[b"ada", b"36"]), Ok(()));
    assert_eq!(script.reads, vec!["chunk", "chunk", "last"]);
    assert_eq!(script.written, vec![b"ada".to_vec(), b"36".to_vec()]);
    assert_eq!(
        script.channel,
        vec![String::from("name?"), String::from("age?"), String::from("bye")]
    );
    assert_eq!(script.console, b"name?\nada\nage?\n36\nbye\n".to_vec());
}

#[test]
fn no_inputs_reads_the_last_chunk_only() {
    let mut script = Script::new(&["banner\n"], true);
    assert_eq!(script.drive(&[]), Ok(()));
    assert_eq!(script.reads, vec!["last"]);
    assert!(script.written.is_empty());
    assert_eq!(script.channel, vec![String::from("banner")]);
    assert_eq!(script.console, b"banner\n".to_vec());
    assert!(script.drained);
}

#[test]
fn channel_without_consumers_degrades_silently() {
    let mut heard = Script::new(&["one\ntwo\n", "three"], true);
    let mut unheard = Script::new(&["one\ntwo\n", "three"], false);
    assert_eq!(heard.drive(&[b"go"]), Ok(()));
    assert_eq!(unheard.drive(&[b"go"]), Ok(()));
    assert_eq!(
        heard.channel,
        vec![String::from("one"), String::from("two"), String::from("three")]
    );
    assert!(unheard.channel.is_empty());
    assert_eq!(unheard.console, heard.console);
    assert_eq!(unheard.console, b"one\ntwo\ngo\nthree".to_vec());
    assert_eq!(unheard.written, heard.written);
}

#[test]
fn chunk_that_cannot_be_decoded_ends_the_run() {
    let (mut run, action) = RunLoop::start(vec![b"in".to_vec()], true);
    assert!(matches!(action, RunAction::ReadChunk));
    let action = run.advance(RunEvent::Chunk { text: Err(Error::Utf8Decode), listening: true });
    assert!(matches!(action, RunAction::Done(Err(Error::Utf8Decode))));
    assert_eq!(run.stage(), RunStage::Finished);
}

#[test]
fn failed_write_ends_the_run() {
    let (mut run, _) = RunLoop::start(vec![b"in".to_vec()], true);
    let action = run.advance(RunEvent::Chunk { text: Ok(String::from("out")), listening: true });
    assert!(matches!(action, RunAction::Forward { .. }));
    let action = run.advance(RunEvent::Completed(true));
    match action {
        RunAction::Write { transport, console } => {
            assert_eq!(transport, b"in".to_vec());
            assert_eq!(console, b"in\n".to_vec());
        }
        other => panic!("expected a write, got {:?}", other),
    }
    assert_eq!(run.stage(), RunStage::Writing);
    let action = run.advance(RunEvent::Completed(false));
    assert!(matches!(action, RunAction::Done(Err(Error::TransportIo))));
    assert_eq!(run.stage(), RunStage::Finished);
}

#[test]
fn failed_mirror_or_drain_ends_the_run() {
    let (mut run, _) = RunLoop::start(Vec::new(), true);
    assert_eq!(run.stage(), RunStage::AwaitLastChunk);
    let _ = run.advance(RunEvent::Chunk { text: Ok(String::from("x")), listening: false });
    assert_eq!(run.stage(), RunStage::ForwardingLast);
    let action = run.advance(RunEvent::Completed(false));
    assert!(matches!(action, RunAction::Done(Err(Error::TransportIo))));

    let (mut run, _) = RunLoop::start(Vec::new(), true);
    let _ = run.advance(RunEvent::Chunk { text: Ok(String::from("x")), listening: false });
    let action = run.advance(RunEvent::Completed(true));
    assert!(matches!(action, RunAction::Drain));
    assert_eq!(run.stage(), RunStage::Draining);
    let action = run.advance(RunEvent::Completed(false));
    assert!(matches!(action, RunAction::Done(Err(Error::TransportIo))));
}

#[test]
fn mirror_holds_the_bytes_of_the_chunk() {
    let (mut run, _) = RunLoop::start(Vec::new(), true);
    let action = run.advance(RunEvent::Chunk {
        text: Ok(String::from("caf\u{e9}\n\n\u{2713}")),
        listening: true,
    });
    match action {
        RunAction::Forward { lines, mirror } => {
            assert_eq!(lines, vec![String::from("caf\u{e9}"), String::from("\u{2713}")]);
            assert_eq!(mirror, "caf\u{e9}\n\n\u{2713}".as_bytes().to_vec());
        }
        other => panic!("expected a chunk to forward, got {:?}", other),
    }
}

#[test]
fn lines_are_split_at_line_feeds() {
    let none: Vec<String> = Vec::new();
    assert_eq!(split_lines(""), none);
    assert_eq!(split_lines("\n"), none);
    assert_eq!(split_lines("\n\n\n"), none);
    assert_eq!(split_lines("pong"), vec![String::from("pong")]);
    assert_eq!(split_lines("pong\n"), vec![String::from("pong")]);
    assert_eq!(split_lines("\npong"), vec![String::from("pong")]);
    assert_eq!(
        split_lines("a\n\nb\r\nc "),
        vec![String::from("a"), String::from("b\r"), String::from("c ")]
    );
}

#[test]
fn lines_agree_with_splitting_and_dropping_empty_parts() {
    for text in ["", "x", "x\ny", "\n\nx\n\ny\n\n", "one two\nthree", "\u{2713}\n\u{e9}"] {
        let expected: Vec<String> = text
            .split('\n')
            .filter(|part| !part.is_empty())
            .map(|part| part.to_owned())
            .collect();
        assert_eq!(split_lines(text), expected);
    }
}

#[test]
fn run_without_a_channel_forwards_nothing() {
    let mut with = Script::new(&["one\ntwo\n", "three"], true);
    let mut without = Script::new(&["one\ntwo\n", "three"], true);
    without.with_channel = false;
    assert_eq!(with.drive(&[b"go"]), Ok(()));
    assert_eq!(without.drive(&[b"go"]), Ok(()));
    assert!(without.channel.is_empty());
    assert_eq!(without.console, with.console);
    assert_eq!(without.written, with.written);
    assert_eq!(without.reads, with.reads);
}

#[test]
fn run_expects_the_answer_to_what_it_asked() {
    let (mut run, _) = RunLoop::start(vec![b"in".to_vec()], true);
    let chunk = RunEvent::Chunk { text: Ok(String::from("out")), listening: true };
    assert!(run.expects(&chunk));
    assert!(!run.expects(&RunEvent::Completed(true)));
    let _ = run.advance(chunk);
    assert!(run.expects(&RunEvent::Completed(true)));
    assert!(run.expects(&RunEvent::Completed(false)));
    assert!(!run.expects(&RunEvent::Chunk { text: Ok(String::new()), listening: true }));
    let _ = run.advance(RunEvent::Completed(false));
    assert_eq!(run.stage(), RunStage::Finished);
    assert!(!run.expects(&RunEvent::Completed(true)));
    assert!(!run.expects(&RunEvent::Chunk { text: Ok(String::new()), listening: false }));
}
