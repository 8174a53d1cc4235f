use cosmic_clip_keep::clip::model::{Capture, EntryKind, Flavor};
use cosmic_clip_keep::clip::privacy::{hint_is_secret, Filter, Refusal};
use cosmic_clip_keep::clip::settings::Settings;

fn capture(text: &str) -> Capture {
    Capture {
        kind: EntryKind::Text,
        flavors: vec![Flavor::new("text/plain", text.as_bytes().to_vec())],
        source_app: None,
    }
}

#[test]
fn ordinary_text_is_accepted() {
    let filter = Filter::new(&Settings::default());
    assert_eq!(filter.accepts(&capture("hello"), false), Ok(()));
}

#[test]
fn private_mode_refuses_everything_and_stops_offers_being_read() {
    let filter = Filter::new(&Settings {
        private_mode: true,
        ..Settings::default()
    });

    assert!(!filter.accepts_offers());
    assert_eq!(
        filter.accepts(&capture("hello"), false),
        Err(Refusal::PrivateMode)
    );
}

#[test]
fn the_password_hint_is_honoured_and_can_be_turned_off() {
    let honoured = Filter::new(&Settings::default());
    assert_eq!(
        honoured.accepts(&capture("hunter2"), true),
        Err(Refusal::PasswordHint)
    );

    let ignored = Filter::new(&Settings {
        respect_password_hint: false,
        ..Settings::default()
    });
    assert_eq!(ignored.accepts(&capture("hunter2"), true), Ok(()));
}

#[test]
fn whitespace_is_not_worth_recording() {
    let filter = Filter::new(&Settings::default());
    assert_eq!(
        filter.accepts(&capture("   \n\t "), false),
        Err(Refusal::Empty)
    );
}

#[test]
fn the_secret_hint_is_read_leniently() {
    assert!(hint_is_secret(b"secret"));
    assert!(hint_is_secret(b" Secret\n"));
    assert!(!hint_is_secret(b"public"));
    assert!(!hint_is_secret(b""));
}

#[test]
fn a_capture_without_flavours_or_bytes_is_empty() {
    let filter = Filter::new(&Settings::default());
    let nothing = Capture { kind: EntryKind::Image, flavors: vec![], source_app: None };
    assert_eq!(filter.accepts(&nothing, false), Err(Refusal::Empty));
    let zero = Capture {
        kind: EntryKind::Image,
        flavors: vec![Flavor::new("image/png", vec![])],
        source_app: None,
    };
    assert_eq!(filter.accepts(&zero, false), Err(Refusal::Empty));
}

#[test]
fn every_refusal_says_why() {
    assert_eq!(Refusal::PrivateMode.describe(), "private mode is on");
    assert_eq!(Refusal::PasswordHint.describe(), "the source marked it as a secret");
    assert_eq!(Refusal::Empty.describe(), "it is empty");
}
