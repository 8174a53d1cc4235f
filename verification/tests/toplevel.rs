use cosmic_clip_keep::clip::wayland::toplevel::{any_activated, is_activated, states, Focus, ACTIVATED};

const MAXIMIZED: u32 = 0;
const MINIMIZED: u32 = 1;

#[test]
fn an_activated_window_is_recognised_in_a_state_array() {
    let mut bytes = Vec::new();
    bytes.extend_from_slice(&MAXIMIZED.to_ne_bytes());
    bytes.extend_from_slice(&ACTIVATED.to_ne_bytes());
    assert!(is_activated(&bytes));
}

#[test]
fn a_window_without_the_activated_state_is_not_focused() {
    let bytes = MINIMIZED.to_ne_bytes();
    assert!(!is_activated(&bytes));
}

#[test]
fn an_empty_state_array_is_not_focused() {
    assert!(!is_activated(&[]));
}

#[test]
fn a_truncated_state_array_is_ignored_rather_than_misread() {
    assert!(!is_activated(&[2, 0, 0]));
}

#[test]
fn states_are_read_word_by_word() {
    let mut bytes = Vec::new();
    bytes.extend_from_slice(&3u32.to_ne_bytes());
    bytes.extend_from_slice(&ACTIVATED.to_ne_bytes());
    bytes.push(9);
    assert_eq!(states(&bytes), vec![3, ACTIVATED]);
    assert!(any_activated(&[1, 2]));
    assert!(!any_activated(&[1, 3]));
}

#[test]
fn focus_follows_the_window_activated_last() {
    let mut focus = Focus::new();
    focus.opened(10);
    focus.opened(11);
    focus.named(10, "org.example.Editor".to_owned());
    focus.named(11, "org.example.Terminal".to_owned());
    assert_eq!(focus.focused_app(), None);

    assert!(focus.restated(10, true), "the focus moved");
    assert_eq!(focus.focused_app().as_deref(), Some("org.example.Editor"));
    assert!(!focus.restated(10, true), "the same window again is no move");
    assert!(!focus.restated(10, false));
    assert_eq!(focus.focused_app().as_deref(), Some("org.example.Editor"));

    assert!(focus.restated(11, true));
    assert_eq!(focus.focused_app().as_deref(), Some("org.example.Terminal"));
}

#[test]
fn a_window_never_listed_or_gone_changes_nothing() {
    let mut focus = Focus::new();
    assert!(!focus.restated(5, true));
    focus.named(5, "ghost".to_owned());
    assert_eq!(focus.focused_app(), None);

    focus.opened(6);
    focus.named(6, "org.example.App".to_owned());
    focus.restated(6, true);
    assert!(focus.closed(6));
    assert!(!focus.closed(6));
    assert_eq!(focus.focused_app(), None, "a closed window's application is forgotten");
}

#[test]
fn a_window_named_late_is_reported_once_named() {
    let mut focus = Focus::new();
    focus.opened(1);
    focus.restated(1, true);
    assert_eq!(focus.focused_app(), None);
    focus.named(1, "org.example.Late".to_owned());
    assert_eq!(focus.focused_app().as_deref(), Some("org.example.Late"));
}

#[test]
fn every_word_is_read_in_one_byte_order() {
    let bytes = [2, 0, 0, 0, 0, 0, 0, 2];
    assert!(is_activated(&bytes), "one of the two words is activated in either byte order");

    let words = states(&bytes);
    let little = u32::from_ne_bytes([1, 0, 0, 0]) == 1;
    if little {
        assert_eq!(words, vec![2, 2 << 24]);
    } else {
        assert_eq!(words, vec![2 << 24, 2]);
    }
}
