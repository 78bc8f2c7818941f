use libspl::chunk::{ChunkReader, ReadEvent, Wait};
use libspl::error::Error;
use libspl::transport::{Interaction, Transport};

fn feed_bytes(reader: &mut ChunkReader, bytes: &[u8]) {
    for b in bytes {
        reader.feed(ReadEvent::Byte(*b));
    }
}

fn feed_idle(reader: &mut ChunkReader, windows: usize) {
    for _ in 0..windows {
        reader.feed(ReadEvent::Idle);
    }
}

#[test]
fn burst_without_gaps_is_one_chunk() {
    let mut reader = ChunkReader::read_chunk(1);
    feed_bytes(&mut reader, b"hello, world\nsecond line");
    assert!(!reader.is_finished());
    feed_idle(&mut reader, 1);
    assert!(reader.is_finished());
    assert_eq!(reader.finish(), Ok(String::from("hello, world\nsecond line")));
}

#[test]
fn fewer_idle_windows_than_slots_do_not_end_the_chunk() {
    for repeat in [1usize, 3, 5] {
        let mut reader = ChunkReader::read_last_chunk(repeat);
        feed_bytes(&mut reader, b"ab");
        feed_idle(&mut reader, repeat - 1);
        assert!(!reader.is_finished());
        feed_bytes(&mut reader, b"cd");
        assert!(!reader.is_finished());
        feed_idle(&mut reader, repeat - 1);
        assert!(!reader.is_finished());
        feed_idle(&mut reader, 1);
        assert!(reader.is_finished());
        assert_eq!(reader.finish(), Ok(String::from("abcd")));
    }
}

#[test]
fn as_many_idle_windows_as_slots_end_the_chunk() {
    for repeat in [1usize, 3, 5] {
        let mut reader = ChunkReader::read_last_chunk(repeat);
        feed_bytes(&mut reader, b"x");
        feed_idle(&mut reader, repeat);
        assert!(reader.is_finished());
        feed_bytes(&mut reader, b"y");
        assert_eq!(reader.finish(), Ok(String::from("x")));
    }
}

#[test]
fn renewed_data_clears_every_slot() {
    let mut reader = ChunkReader::read_last_chunk(3);
    feed_bytes(&mut reader, b"a");
    feed_idle(&mut reader, 2);
    assert!(!reader.is_finished());
    feed_bytes(&mut reader, b"b");
    feed_idle(&mut reader, 2);
    assert!(!reader.is_finished());
    feed_idle(&mut reader, 1);
    assert!(reader.is_finished());
    assert_eq!(reader.finish(), Ok(String::from("ab")));
}

#[test]
fn silence_alone_ends_the_last_chunk_empty() {
    let mut reader = ChunkReader::read_last_chunk(3);
    assert_eq!(reader.wanted(), Some(Wait::IdleWindow));
    feed_idle(&mut reader, 2);
    assert_eq!(reader.wanted(), Some(Wait::IdleWindow));
    feed_idle(&mut reader, 1);
    assert_eq!(reader.wanted(), None);
    assert_eq!(reader.finish(), Ok(String::new()));
}

#[test]
fn no_slot_means_the_first_idle_window_ends_the_chunk() {
    let mut reader = ChunkReader::read_last_chunk(0);
    feed_bytes(&mut reader, b"x");
    assert!(!reader.is_finished());
    feed_idle(&mut reader, 1);
    assert!(reader.is_finished());
    assert_eq!(reader.finish(), Ok(String::from("x")));
}

#[test]
fn first_byte_is_awaited_without_a_limit() {
    let mut reader = ChunkReader::read_chunk(1);
    assert_eq!(reader.wanted(), Some(Wait::Unbounded));
    feed_idle(&mut reader, 100);
    assert_eq!(reader.wanted(), Some(Wait::Unbounded));
    reader.feed(ReadEvent::Byte(b'>'));
    assert_eq!(reader.wanted(), Some(Wait::IdleWindow));
    feed_idle(&mut reader, 1);
    assert_eq!(reader.wanted(), None);
    assert_eq!(reader.finish(), Ok(String::from(">")));
}

#[test]
fn chunk_is_decoded_as_utf8() {
    let mut reader = ChunkReader::read_last_chunk(1);
    feed_bytes(&mut reader, "h\u{e9}llo \u{2713}".as_bytes());
    feed_idle(&mut reader, 1);
    assert_eq!(reader.finish(), Ok(String::from("h\u{e9}llo \u{2713}")));

    let mut reader = ChunkReader::read_chunk(1);
    feed_bytes(&mut reader, "a\u{2713}".as_bytes());
    feed_idle(&mut reader, 1);
    assert_eq!(reader.finish(), Ok(String::from("a\u{2713}")));
}

#[test]
fn first_byte_is_decoded_with_the_rest() {
    let mut reader = ChunkReader::read_chunk(3);
    reader.feed(ReadEvent::Byte(0xc3));
    assert!(!reader.is_finished());
    assert_eq!(reader.wanted(), Some(Wait::IdleWindow));
    reader.feed(ReadEvent::Byte(0xa9));
    feed_idle(&mut reader, 3);
    assert!(reader.is_finished());
    assert_eq!(reader.finish(), Ok(String::from("\u{e9}")));
}

#[test]
fn invalid_utf8_is_an_error_and_nothing_is_handed_out() {
    let mut reader = ChunkReader::read_last_chunk(1);
    feed_bytes(&mut reader, &[b'o', b'k', 0xff, b'!']);
    feed_idle(&mut reader, 1);
    assert_eq!(reader.finish(), Err(Error::Utf8Decode));

    let mut reader = ChunkReader::read_last_chunk(1);
    feed_bytes(&mut reader, &[0xe2, 0x9c]);
    feed_idle(&mut reader, 1);
    assert_eq!(reader.finish(), Err(Error::Utf8Decode));

    let mut reader = ChunkReader::read_chunk(1);
    feed_bytes(&mut reader, &[0xc3]);
    feed_idle(&mut reader, 1);
    assert_eq!(reader.finish(), Err(Error::Utf8Decode));
}

#[test]
fn events_after_the_end_change_nothing() {
    let mut reader = ChunkReader::read_last_chunk(1);
    feed_bytes(&mut reader, b"done");
    feed_idle(&mut reader, 1);
    feed_bytes(&mut reader, b"late");
    feed_idle(&mut reader, 3);
    assert!(reader.is_finished());
    assert_eq!(reader.finish(), Ok(String::from("done")));
}

#[test]
fn timing_of_each_transport() {
    assert_eq!(Transport::Socket.timeout_millis(), 50);
    assert_eq!(Transport::Socket.repeat_count(), 5);
    assert_eq!(Transport::LocalProcess.timeout_millis(), 0);
    assert_eq!(Transport::LocalProcess.repeat_count(), 1);
    assert_eq!(Transport::RemoteProcess.timeout_millis(), 50);
    assert_eq!(Transport::RemoteProcess.repeat_count(), 3);
}

#[test]
fn transport_readers_use_their_own_slots() {
    let mut reader = Transport::Socket.read_last_chunk();
    feed_bytes(&mut reader, b"s");
    feed_idle(&mut reader, 4);
    assert!(!reader.is_finished());
    feed_idle(&mut reader, 1);
    assert!(reader.is_finished());

    let mut reader = Transport::RemoteProcess.read_chunk();
    assert_eq!(reader.wanted(), Some(Wait::Unbounded));
    feed_bytes(&mut reader, b"r");
    feed_idle(&mut reader, 2);
    assert!(!reader.is_finished());
    feed_idle(&mut reader, 1);
    assert!(reader.is_finished());

    let mut reader = Transport::LocalProcess.read_last_chunk();
    feed_bytes(&mut reader, b"l");
    feed_idle(&mut reader, 1);
    assert!(reader.is_finished());
}
