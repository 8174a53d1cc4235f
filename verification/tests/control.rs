use std::io::{Error, ErrorKind};

use cosmic_clip_keep::control::{
    abandoned, answer_of, is_socket_name, reply_of, request_of, Answer, Step, Toggle, ASK,
    DECLINED, FORCE, TAKEN, TOGGLE,
};

#[test]
fn the_protocol_bytes_are_single_letters() {
    assert_eq!(ASK, b't');
    assert_eq!(FORCE, b'T');
    assert_eq!(TAKEN, b'1');
    assert_eq!(DECLINED, b'0');
    assert_eq!(TOGGLE, "--toggle");
}

#[test]
fn requests_are_read_and_anything_else_ignored() {
    assert_eq!(request_of(b't'), Some(false));
    assert_eq!(request_of(b'T'), Some(true));
    assert_eq!(request_of(b'x'), None);
    assert_eq!(reply_of(true), b'1');
    assert_eq!(reply_of(false), b'0');
    assert_eq!(answer_of(b'1'), Answer::Taken);
    assert_eq!(answer_of(b'0'), Answer::Declined);
    assert_eq!(answer_of(b'?'), Answer::Declined);
}

#[test]
fn only_a_missing_or_refusing_socket_is_abandoned() {
    assert!(abandoned(&Error::from(ErrorKind::NotFound)));
    assert!(abandoned(&Error::from(ErrorKind::ConnectionRefused)));
    assert!(!abandoned(&Error::from(ErrorKind::PermissionDenied)));
}

#[test]
fn only_sockets_are_listed() {
    assert!(is_socket_name("a.sock"));
    assert!(is_socket_name("0123abcd.sock"));
    assert!(!is_socket_name("notes.txt"));
    assert!(!is_socket_name(".sock"));
    assert!(!is_socket_name("sock"));
    assert!(!is_socket_name("a.sock.old"));
    assert!(!is_socket_name(".."));
}

#[test]
fn the_first_instance_that_takes_the_request_ends_the_toggle() {
    let (mut toggle, step) = Toggle::new(3);
    assert_eq!(step, Step::Ask { socket: 0, request: ASK });
    let step = toggle.answered(Answer::Unclear);
    assert_eq!(step, Step::Ask { socket: 1, request: ASK });
    assert_eq!(toggle.answered(Answer::Taken), Step::Done(true));
}

#[test]
fn an_instance_that_declines_is_asked_again_without_a_choice() {
    let (mut toggle, _) = Toggle::new(3);
    assert_eq!(toggle.answered(Answer::Declined), Step::Ask { socket: 1, request: ASK });
    assert_eq!(toggle.answered(Answer::Gone), Step::Remove { socket: 1 });
    assert_eq!(toggle.removed(), Step::Ask { socket: 2, request: ASK });
    assert_eq!(toggle.answered(Answer::Declined), Step::Ask { socket: 0, request: FORCE });
    assert_eq!(toggle.answered(Answer::Unclear), Step::Ask { socket: 2, request: FORCE });
    assert_eq!(toggle.answered(Answer::Taken), Step::Done(true));
}

#[test]
fn nobody_taking_the_request_is_reported() {
    let (_, step) = Toggle::new(0);
    assert_eq!(step, Step::Done(false));

    let (mut toggle, _) = Toggle::new(1);
    assert_eq!(toggle.answered(Answer::Declined), Step::Ask { socket: 0, request: FORCE });
    assert_eq!(toggle.answered(Answer::Declined), Step::Done(false));
}
