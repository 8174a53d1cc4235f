use cosmic_clip_keep::clip::wayland::{candidates, no_compositor, SetupError};

#[test]
fn a_missing_runtime_dir_yields_no_candidates() {
    assert!(candidates(None, None).is_empty());
    assert!(candidates(None, Some("/tmp/compositor")).is_empty());
}

#[test]
fn the_named_display_is_tried_before_the_numbered_sweep() {
    let found = candidates(Some("/run/user/1000"), Some("wayland-3"));
    assert_eq!(found[0], "/run/user/1000/wayland-3");
    assert_eq!(found.len(), 9, "the named display is not tried twice");
    assert!(found.iter().any(|path| path == "/run/user/1000/wayland-0"));
    assert_eq!(found.iter().filter(|path| path.ends_with("wayland-3")).count(), 1);
}

#[test]
fn an_absolute_display_is_taken_as_it_is() {
    let found = candidates(Some("/run/user/1000/"), Some("/tmp/compositor"));
    assert_eq!(found[0], "/tmp/compositor");
    assert_eq!(found[1], "/run/user/1000/wayland-0");
    assert_eq!(found.len(), 10);
}

#[test]
fn without_a_named_display_the_sweep_is_all_there_is() {
    let found = candidates(Some("/x"), None);
    assert_eq!(found.len(), 9);
    assert_eq!(found[8], "/x/wayland-8");
}

#[test]
fn setup_errors_say_what_went_wrong() {
    assert_eq!(
        SetupError::NoSeat.describe(),
        "the compositor reported no seat"
    );
    assert_eq!(
        SetupError::Protocol("bad".to_owned()).describe(),
        "the Wayland handshake failed: bad"
    );
    assert_eq!(
        no_compositor(&[]).describe(),
        "could not reach the compositor: XDG_RUNTIME_DIR is not set"
    );
    assert_eq!(
        no_compositor(&["a: refused".to_owned(), "b: missing".to_owned()]),
        SetupError::NoCompositor("a: refused; b: missing".to_owned())
    );
}
