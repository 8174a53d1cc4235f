use std::io::{PipeReader, PipeWriter, Write};
use std::io::ErrorKind;

use cosmic_clip_keep::clip::wayland::reader::{pump, take, wanted, Chunk, Progress, Step, CHUNK};

fn pipe() -> (PipeReader, PipeWriter) {
    let (reader, writer) = std::io::pipe().unwrap();
    let flags = rustix::fs::fcntl_getfl(&reader).unwrap();
    rustix::fs::fcntl_setfl(&reader, flags | rustix::fs::OFlags::NONBLOCK).unwrap();
    (reader, writer)
}

fn drain(reader: &PipeReader, limit: usize) -> (Vec<u8>, &'static str) {
    let mut buffer = Vec::new();
    loop {
        match pump(reader, &mut buffer, limit) {
            Progress::Reading => {}
            Progress::Finished => return (buffer, "finished"),
            Progress::Overflowed => return (buffer, "overflowed"),
            Progress::Failed(_) => return (buffer, "failed"),
        }
    }
}

#[test]
fn a_short_write_is_read_whole() {
    let (reader, mut writer) = pipe();
    writer.write_all(b"hello").unwrap();
    drop(writer);

    let (buffer, outcome) = drain(&reader, 1024);

    assert_eq!(buffer, b"hello");
    assert_eq!(outcome, "finished");
}

#[test]
fn an_empty_selection_finishes_immediately() {
    let (reader, writer) = pipe();
    drop(writer);

    let (buffer, outcome) = drain(&reader, 1024);

    assert!(buffer.is_empty());
    assert_eq!(outcome, "finished");
}

#[test]
fn a_reader_with_no_room_left_reports_overflow_without_reading() {
    let (reader, mut writer) = pipe();
    writer.write_all(b"data").unwrap();
    let mut buffer = vec![0; 16];

    assert!(matches!(
        pump(&reader, &mut buffer, 16),
        Progress::Overflowed
    ));
    assert_eq!(buffer.len(), 16, "the buffer is left as it was");
}

#[test]
fn a_pipe_with_nothing_in_it_yet_does_not_block() {
    let (reader, _writer) = pipe();
    let mut buffer = Vec::new();

    assert!(matches!(
        pump(&reader, &mut buffer, 1024),
        Progress::Reading
    ));
    assert!(buffer.is_empty());
}

#[test]
fn what_was_read_before_is_kept_and_the_rest_appended() {
    let (reader, mut writer) = pipe();
    writer.write_all(b" world").unwrap();
    drop(writer);
    let mut buffer = b"hello".to_vec();

    while let Progress::Reading = pump(&reader, &mut buffer, 1024) {}

    assert_eq!(buffer, b"hello world");
}

#[test]
fn more_than_the_limit_overflows_without_passing_it() {
    let (reader, mut writer) = pipe();
    writer.write_all(&[b'z'; 100]).unwrap();
    drop(writer);

    let (buffer, outcome) = drain(&reader, 10);

    assert_eq!(outcome, "overflowed");
    assert_eq!(buffer.len(), 10);
    assert!(CHUNK > 10);
}

fn set_nonblocking(writer: &PipeWriter) {
    let flags = rustix::fs::fcntl_getfl(writer).unwrap();
    rustix::fs::fcntl_setfl(writer, flags | rustix::fs::OFlags::NONBLOCK).unwrap();
}

/// Writes what the pipe takes of `payload[*sent..]` without blocking.
fn feed(writer: &mut PipeWriter, payload: &[u8], sent: &mut usize) {
    while *sent < payload.len() {
        match writer.write(&payload[*sent..]) {
            Ok(0) => break,
            Ok(written) => *sent += written,
            Err(error) if error.kind() == ErrorKind::WouldBlock => break,
            Err(error) => panic!("could not write to the pipe: {error}"),
        }
    }
}

#[test]
fn a_write_larger_than_one_chunk_is_reassembled() {
    let payload = vec![b'x'; CHUNK * 3 + 7];
    let (reader, mut writer) = pipe();
    set_nonblocking(&writer);

    let mut buffer = Vec::new();
    let mut sent = 0;
    while sent < payload.len() {
        feed(&mut writer, &payload, &mut sent);
        assert!(matches!(
            pump(&reader, &mut buffer, payload.len() * 2),
            Progress::Reading
        ));
    }
    let (buffer, outcome) = drain_rest(&reader, writer, buffer, payload.len() * 2);

    assert_eq!(buffer.len(), payload.len());
    assert_eq!(outcome, "finished");
}

/// Closes the writing end and reads what is left.
fn drain_rest(
    reader: &PipeReader,
    writer: PipeWriter,
    mut buffer: Vec<u8>,
    limit: usize,
) -> (Vec<u8>, &'static str) {
    drop(writer);
    loop {
        match pump(reader, &mut buffer, limit) {
            Progress::Reading => {}
            Progress::Finished => return (buffer, "finished"),
            Progress::Overflowed => return (buffer, "overflowed"),
            Progress::Failed(_) => return (buffer, "failed"),
        }
    }
}

#[test]
fn the_ceiling_stops_the_transfer_rather_than_truncating_it() {
    let payload = vec![b'y'; CHUNK * 8];
    let (reader, mut writer) = pipe();
    set_nonblocking(&writer);

    let mut buffer = Vec::new();
    let mut sent = 0;
    let outcome = loop {
        feed(&mut writer, &payload, &mut sent);
        match pump(&reader, &mut buffer, CHUNK * 2) {
            Progress::Reading => {}
            Progress::Finished => break "finished",
            Progress::Overflowed => break "overflowed",
            Progress::Failed(_) => break "failed",
        }
    };
    assert_eq!(outcome, "overflowed");

    drop(reader);
    drop(writer);
}

#[test]
fn a_read_asks_for_a_chunk_or_the_room_left() {
    assert_eq!(wanted(0, CHUNK * 4), CHUNK);
    assert_eq!(wanted(10, 30), 20);
    assert_eq!(wanted(CHUNK, CHUNK + 1), 1);
}

#[test]
fn bytes_read_are_appended_and_reading_goes_on() {
    let mut buffer = b"ab".to_vec();
    let step = take(&mut buffer, Chunk::Data(b"cd".to_vec()));
    assert!(matches!(step, Step::More));
    assert_eq!(buffer, b"abcd");
}

#[test]
fn an_empty_read_finishes_the_flavour() {
    let mut buffer = b"ab".to_vec();
    let step = take(&mut buffer, Chunk::Data(Vec::new()));
    assert!(matches!(step, Step::Done(Progress::Finished)));
    assert_eq!(buffer, b"ab");
}

#[test]
fn an_interrupted_read_is_tried_again() {
    let mut buffer = b"ab".to_vec();
    let step = take(&mut buffer, Chunk::Interrupted);
    assert!(matches!(step, Step::Again));
    assert_eq!(buffer, b"ab");
}

#[test]
fn an_empty_pipe_leaves_the_rest_for_the_next_turn() {
    let mut buffer = Vec::new();
    let step = take(&mut buffer, Chunk::WouldBlock);
    assert!(matches!(step, Step::Done(Progress::Reading)));
    assert!(buffer.is_empty());
}

#[test]
fn a_read_error_fails_the_transfer() {
    let mut buffer = b"x".to_vec();
    let error = std::io::Error::new(ErrorKind::BrokenPipe, "gone");
    let step = take(&mut buffer, Chunk::Failed(error));
    match step {
        Step::Done(Progress::Failed(e)) => assert_eq!(e.kind(), ErrorKind::BrokenPipe),
        _ => panic!("expected a failure"),
    }
    assert_eq!(buffer, b"x");
}
