use std::io::{PipeWriter, Read};
use std::sync::Arc;

use cosmic_clip_keep::clip::wayland::writer::{Outgoing, Progress, Sent, Step, BURST, CHUNK};

fn set_nonblocking(writer: &PipeWriter) {
    let flags = rustix::fs::fcntl_getfl(writer).unwrap();
    rustix::fs::fcntl_setfl(writer, flags | rustix::fs::OFlags::NONBLOCK).unwrap();
}

#[test]
fn a_short_body_goes_out_in_one_pump() {
    let (mut reader, writer) = std::io::pipe().unwrap();
    let mut outgoing = Outgoing::new(Arc::from(&b"hello"[..]));

    assert_eq!(outgoing.pump(&writer), Progress::Finished);
    drop(writer);

    let mut received = String::new();
    reader.read_to_string(&mut received).unwrap();
    assert_eq!(received, "hello");
}

#[test]
fn an_empty_body_is_finished_before_it_starts() {
    let (_reader, writer) = std::io::pipe().unwrap();
    let mut outgoing = Outgoing::new(Arc::from([]));

    assert_eq!(outgoing.pump(&writer), Progress::Finished);
    assert_eq!(outgoing.remaining(), 0);
}

#[test]
fn a_receiver_that_leaves_early_is_not_an_error() {
    let (reader, writer) = std::io::pipe().unwrap();
    set_nonblocking(&writer);
    drop(reader);

    let mut outgoing = Outgoing::new(Arc::from(vec![b'q'; CHUNK * 2]));

    let mut outcome = outgoing.pump(&writer);
    for _ in 0..8 {
        if outcome != Progress::Writing {
            break;
        }
        outcome = outgoing.pump(&writer);
    }

    assert_eq!(outcome, Progress::Abandoned);
}

#[test]
fn a_full_pipe_leaves_the_rest_for_later() {
    let (mut reader, writer) = std::io::pipe().unwrap();
    set_nonblocking(&writer);
    let flags = rustix::fs::fcntl_getfl(&reader).unwrap();
    rustix::fs::fcntl_setfl(&reader, flags | rustix::fs::OFlags::NONBLOCK).unwrap();
    let body: Arc<[u8]> = vec![b'w'; 1 << 20].into();
    let mut outgoing = Outgoing::new(Arc::clone(&body));

    assert_eq!(outgoing.pump(&writer), Progress::Writing);
    let left = outgoing.remaining();
    assert!(left > 0 && left < body.len());

    let mut received = Vec::new();
    let mut chunk = vec![0u8; 1 << 16];
    for _ in 0..100_000 {
        if received.len() == body.len() {
            break;
        }
        if let Ok(read) = reader.read(&mut chunk) {
            received.extend_from_slice(&chunk[..read]);
        }
        if outgoing.remaining() > 0 {
            let _ = outgoing.pump(&writer);
        }
    }
    assert_eq!(received.len(), body.len());
    assert_eq!(outgoing.remaining(), 0);
    assert_eq!(outgoing.pump(&writer), Progress::Finished);
}

#[test]
fn a_long_body_takes_several_pumps() {
    let payload: Arc<[u8]> = vec![b'z'; BURST + CHUNK].into();
    let (mut reader, writer) = std::io::pipe().unwrap();
    set_nonblocking(&writer);
    let flags = rustix::fs::fcntl_getfl(&reader).unwrap();
    rustix::fs::fcntl_setfl(&reader, flags | rustix::fs::OFlags::NONBLOCK).unwrap();
    let mut outgoing = Outgoing::new(Arc::clone(&payload));

    let mut received = Vec::new();
    let mut chunk = vec![0u8; 1 << 16];
    let mut pumps = 0;
    loop {
        match outgoing.pump(&writer) {
            Progress::Finished => break,
            Progress::Writing => {
                pumps += 1;
                assert!(pumps < 1_000_000, "transfer stalled with {} bytes remaining", outgoing.remaining());
            }
            Progress::Abandoned => panic!("the receiver stayed open"),
        }
        while let Ok(read) = reader.read(&mut chunk) {
            if read == 0 {
                break;
            }
            received.extend_from_slice(&chunk[..read]);
        }
    }
    drop(writer);
    while let Ok(read) = reader.read(&mut chunk) {
        if read == 0 {
            break;
        }
        received.extend_from_slice(&chunk[..read]);
    }

    assert_eq!(received.len(), payload.len());
    assert!(pumps >= 1, "a body larger than one burst needs another pump");
}

#[test]
fn the_next_chunk_is_at_most_one_chunk_from_where_it_stands() {
    let outgoing = Outgoing::new(Arc::from(vec![0u8; CHUNK + 10]));
    assert_eq!(outgoing.next_chunk(), (0, CHUNK));

    let short = Outgoing::new(Arc::from(&b"hello"[..]));
    assert_eq!(short.next_chunk(), (0, 5));
}

#[test]
fn bytes_that_went_out_count_as_sent() {
    let mut outgoing = Outgoing::new(Arc::from(&b"hello"[..]));
    let handed = outgoing.next_chunk();
    assert_eq!(outgoing.advance(handed, Sent::Wrote(3)), Step::More);
    assert_eq!(outgoing.remaining(), 2);
    assert_eq!(outgoing.next_chunk(), (3, 5));
}

#[test]
fn a_write_that_takes_nothing_abandons_the_transfer() {
    let mut outgoing = Outgoing::new(Arc::from(&b"hello"[..]));
    let handed = outgoing.next_chunk();
    assert_eq!(outgoing.advance(handed, Sent::Wrote(0)), Step::Done(Progress::Abandoned));
    assert_eq!(outgoing.remaining(), 5);
}

#[test]
fn each_other_outcome_leaves_what_has_gone() {
    let mut outgoing = Outgoing::new(Arc::from(&b"hello"[..]));
    let handed = outgoing.next_chunk();
    assert_eq!(outgoing.advance(handed, Sent::Interrupted), Step::Again);
    assert_eq!(outgoing.advance(handed, Sent::WouldBlock), Step::Done(Progress::Writing));
    assert_eq!(outgoing.advance(handed, Sent::Gone), Step::Done(Progress::Abandoned));
    assert_eq!(outgoing.remaining(), 5);
}
